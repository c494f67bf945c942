//! A small JSON value type with a verified serializer and parser.
//!
//! Numbers are restricted to integers, which is all the wire protocol uses;
//! a frame holding a fractional number is treated as undecodable. The parser
//! accepts whitespace and the standard escapes; the serializer emits the
//! compact form. Parsing what the serializer produced gives the value back,
//! which is proved below.

use vstd::prelude::*;

use crate::text::all_digits;
use crate::text::decimal_digits;
use crate::text::decimal_val;
use crate::text::digit_val;
use crate::text::format_decimal;
use crate::text::is_digit;
use crate::text::lemma_decimal_digits_val;

verus! {

broadcast use vstd::std_specs::vec::axiom_vec_index_decreases, vstd::seq::axiom_seq_index_decreases, vstd::utf8::char_is_scalar, vstd::utf8::char_u32_cast;

/// A JSON value. A number is a sign and a magnitude; `neg` is never set on a
/// zero magnitude in a well-formed value.
#[derive(Debug)]
pub enum Json {
    Null,
    Bool(bool),
    Num { neg: bool, mag: u64 },
    Str(String),
    Arr(Vec<Json>),
    Obj(Vec<(String, Json)>),
}

/// Mathematical shape of a JSON value.
pub enum JsonView {
    Null,
    Bool(bool),
    Num(int),
    Str(Seq<char>),
    Arr(Seq<JsonView>),
    Obj(Seq<(Seq<char>, JsonView)>),
}

/// The view of a value.
pub open spec fn json_view(v: Json) -> JsonView
    decreases v,
{
    match v {
        Json::Null => JsonView::Null,
        Json::Bool(b) => JsonView::Bool(b),
        Json::Num { neg, mag } => JsonView::Num(
            if neg {
                -(mag as int)
            } else {
                mag as int
            },
        ),
        Json::Str(s) => JsonView::Str(s@),
        Json::Arr(items) => JsonView::Arr(arr_views(items@)),
        Json::Obj(members) => JsonView::Obj(obj_views(members@)),
    }
}

/// The views of the elements of an array.
pub open spec fn arr_views(items: Seq<Json>) -> Seq<JsonView>
    decreases items,
{
    if items.len() == 0 {
        Seq::<JsonView>::empty()
    } else {
        arr_views(items.drop_last()).push(json_view(items[items.len() - 1]))
    }
}

/// The views of the members of an object.
pub open spec fn obj_views(members: Seq<(String, Json)>) -> Seq<(Seq<char>, JsonView)>
    decreases members,
{
    if members.len() == 0 {
        Seq::<(Seq<char>, JsonView)>::empty()
    } else {
        obj_views(members.drop_last()).push(
            (members[members.len() - 1].0@, json_view(members[members.len() - 1].1)),
        )
    }
}

/// `arr_views` maps the elements one for one.
pub proof fn lemma_arr_views(items: Seq<Json>)
    ensures
        arr_views(items).len() == items.len(),
        forall|i: int| 0 <= i < items.len() ==> arr_views(items)[i] == json_view(#[trigger] items[i]),
    decreases items.len(),
{
    if items.len() > 0 {
        lemma_arr_views(items.drop_last());
        assert forall|i: int| 0 <= i < items.len() implies arr_views(items)[i] == json_view(
            #[trigger] items[i],
        ) by {
            if i < items.len() - 1 {
                assert(items.drop_last()[i] == items[i]);
            }
        }
    }
}

/// `obj_views` maps the members one for one.
pub proof fn lemma_obj_views(members: Seq<(String, Json)>)
    ensures
        obj_views(members).len() == members.len(),
        forall|i: int|
            0 <= i < members.len() ==> obj_views(members)[i] == ((#[trigger] members[i]).0@,
            json_view(members[i].1)),
    decreases members.len(),
{
    if members.len() > 0 {
        lemma_obj_views(members.drop_last());
        assert forall|i: int| 0 <= i < members.len() implies obj_views(members)[i] == ((
        #[trigger] members[i]).0@, json_view(members[i].1)) by {
            if i < members.len() - 1 {
                assert(members.drop_last()[i] == members[i]);
            }
        }
    }
}

impl View for Json {
    type V = JsonView;

    open spec fn view(&self) -> JsonView {
        json_view(*self)
    }
}

/// Well-formed values: number magnitudes fit in a `u64` and are positive
/// when negated.
pub open spec fn json_wf(v: JsonView) -> bool
    decreases v,
{
    match v {
        JsonView::Null => true,
        JsonView::Bool(_) => true,
        JsonView::Num(n) => -(u64::MAX as int) <= n <= u64::MAX as int,
        JsonView::Str(_) => true,
        JsonView::Arr(items) => forall|i: int|
            0 <= i < items.len() ==> json_wf(#[trigger] items[i]),
        JsonView::Obj(members) => forall|i: int|
            0 <= i < members.len() ==> json_wf((#[trigger] members[i]).1),
    }
}

/// Every view of an executable value is well formed.
pub proof fn lemma_json_view_wf(v: Json)
    ensures
        json_wf(v@),
    decreases v,
{
    match v {
        Json::Arr(items) => {
            lemma_arr_views(items@);
            assert forall|i: int| 0 <= i < items@.len() implies json_wf(
                #[trigger] v@->Arr_0[i],
            ) by {
                lemma_json_view_wf(items@[i]);
            }
        },
        Json::Obj(members) => {
            lemma_obj_views(members@);
            assert forall|i: int| 0 <= i < members@.len() implies json_wf(
                (#[trigger] v@->Obj_0[i]).1,
            ) by {
                lemma_json_view_wf(members@[i].1);
            }
        },
        _ => {},
    }
}

/// The serialized form of one string character.
pub open spec fn esc_char(c: char) -> Seq<char> {
    if c == '"' {
        seq!['\\', '"']
    } else if c == '\\' {
        seq!['\\', '\\']
    } else if (c as u32) < 32 {
        seq!['\\', 'u', '0', '0', hex_char((c as u32 / 16) as nat), hex_char((c as u32 % 16) as nat)]
    } else {
        seq![c]
    }
}

/// Lower-case hex digit for a value below sixteen.
pub open spec fn hex_char(d: nat) -> char {
    if d % 16 < 10 {
        crate::text::digit_char(d % 16)
    } else if d % 16 == 10 {
        'a'
    } else if d % 16 == 11 {
        'b'
    } else if d % 16 == 12 {
        'c'
    } else if d % 16 == 13 {
        'd'
    } else if d % 16 == 14 {
        'e'
    } else {
        'f'
    }
}

/// The body of a serialized string: each character escaped.
pub open spec fn esc_str(s: Seq<char>) -> Seq<char>
    decreases s.len(),
{
    if s.len() == 0 {
        Seq::<char>::empty()
    } else {
        esc_char(s.first()) + esc_str(s.drop_first())
    }
}

/// The serialized form of a number.
pub open spec fn ser_num(n: int) -> Seq<char> {
    if n < 0 {
        seq!['-'] + decimal_digits((-n) as nat)
    } else {
        decimal_digits(n as nat)
    }
}

/// The compact serialized form of a value.
pub open spec fn ser_json(v: JsonView) -> Seq<char>
    decreases v, 1int,
{
    match v {
        JsonView::Null => "null"@,
        JsonView::Bool(b) => if b {
            "true"@
        } else {
            "false"@
        },
        JsonView::Num(n) => ser_num(n),
        JsonView::Str(s) => seq!['"'] + esc_str(s) + seq!['"'],
        JsonView::Arr(items) => seq!['['] + ser_items(items) + seq![']'],
        JsonView::Obj(members) => seq!['{'] + ser_members(members) + seq!['}'],
    }
}

/// Array items, comma separated.
pub open spec fn ser_items(items: Seq<JsonView>) -> Seq<char>
    decreases items, 0int,
{
    if items.len() == 0 {
        Seq::<char>::empty()
    } else if items.len() == 1 {
        ser_json(items[0])
    } else {
        ser_json(items[0]) + seq![','] + ser_items(items.drop_first())
    }
}

/// Object members, comma separated, each a quoted key, a colon and a value.
pub open spec fn ser_members(members: Seq<(Seq<char>, JsonView)>) -> Seq<char>
    decreases members, 0int,
{
    if members.len() == 0 {
        Seq::<char>::empty()
    } else {
        let m = seq!['"'] + esc_str(members[0].0) + seq!['"'] + seq![':'] + ser_json(members[0].1);
        if members.len() == 1 {
            m
        } else {
            m + seq![','] + ser_members(members.drop_first())
        }
    }
}

fn hex_to_char(d: u64) -> (r: char)
    requires
        d < 16,
    ensures
        r == hex_char(d as nat),
{
    if d < 10 {
        crate::text::digit_to_char(d)
    } else if d == 10 {
        'a'
    } else if d == 11 {
        'b'
    } else if d == 12 {
        'c'
    } else if d == 13 {
        'd'
    } else if d == 14 {
        'e'
    } else {
        'f'
    }
}

/// Appends the escaped form of `s` to `out`.
fn write_escaped(out: &mut Vec<char>, s: &Vec<char>)
    ensures
        final(out)@ == old(out)@ + esc_str(s@),
{
    let mut i: usize = 0;
    proof {
        assert(s@.skip(0) =~= s@);
    }
    while i < s.len()
        invariant
            0 <= i <= s@.len(),
            out@ + esc_str(s@.skip(i as int)) == old(out)@ + esc_str(s@),
        decreases s@.len() - i,
    {
        let ghost pre = out@;
        proof {
            assert(s@.skip(i as int).first() == s@[i as int]);
            assert(s@.skip(i as int).drop_first() =~= s@.skip(i as int + 1));
        }
        let c = s[i];
        let u = c as u32;
        if c == '"' {
            out.push('\\');
            out.push('"');
        } else if c == '\\' {
            out.push('\\');
            out.push('\\');
        } else if u < 32 {
            out.push('\\');
            out.push('u');
            out.push('0');
            out.push('0');
            out.push(hex_to_char((u / 16) as u64));
            out.push(hex_to_char((u % 16) as u64));
        } else {
            out.push(c);
        }
        proof {
            assert(out@ =~= pre + esc_char(s@[i as int]));
            assert(pre + (esc_char(s@[i as int]) + esc_str(s@.skip(i as int + 1))) =~= (pre
                + esc_char(s@[i as int])) + esc_str(s@.skip(i as int + 1)));
        }
        i = i + 1;
    }
    proof {
        assert(s@.skip(s@.len() as int) =~= Seq::<char>::empty());
        assert(out@ + esc_str(Seq::<char>::empty()) =~= out@);
    }
}

/// Appends the serialized form of `v` to `out`.
pub fn write_json(out: &mut Vec<char>, v: &Json)
    ensures
        final(out)@ == old(out)@ + ser_json(v@),
    decreases v,
{
    match v {
        Json::Null => {
            let lit = crate::text::to_chars("null");
            let mut j: usize = 0;
            append_vec(out, &lit);
        },
        Json::Bool(b) => {
            let lit = if *b {
                crate::text::to_chars("true")
            } else {
                crate::text::to_chars("false")
            };
            append_vec(out, &lit);
        },
        Json::Num { neg, mag } => {
            let ghost pre = out@;
            if *neg && *mag > 0 {
                out.push('-');
            }
            let digits = format_decimal(*mag);
            append_vec(out, &digits);
            proof {
                if *neg && *mag > 0 {
                    assert(out@ =~= pre + (seq!['-'] + decimal_digits(*mag as nat)));
                } else {
                    assert(out@ =~= pre + decimal_digits(*mag as nat));
                    if *neg {
                        assert(v@->Num_0 == 0);
                    }
                }
            }
        },
        Json::Str(s) => {
            let ghost pre = out@;
            out.push('"');
            let chars = crate::text::to_chars(s.as_str());
            write_escaped(out, &chars);
            out.push('"');
            proof {
                assert(out@ =~= pre + (seq!['"'] + esc_str(s@) + seq!['"']));
            }
        },
        Json::Arr(items) => {
            let ghost pre = out@;
            out.push('[');
            let mut i: usize = 0;
            proof {
                lemma_arr_views(items@);
            }
            while i < items.len()
                invariant
                    0 <= i <= items@.len(),
                    v is Arr,
                    v->Arr_0 == *items,
                    v@ == json_view(Json::Arr(*items)),
                    v@->Arr_0.len() == items@.len(),
                    forall|k: int|
                        0 <= k < items@.len() ==> v@->Arr_0[k] == json_view(#[trigger] items@[k]),
                    out@ == pre + seq!['['] + ser_items_prefix(v@->Arr_0, i as int),
                decreases items@.len() - i,
            {
                let ghost before = out@;
                if i > 0 {
                    out.push(',');
                }
                proof {
                    assert(decreases_to!(v => v->Arr_0));
                    assert(decreases_to!(v->Arr_0 => v->Arr_0@));
                    assert(decreases_to!(v->Arr_0@ => v->Arr_0@[i as int]));
                }
                write_json(out, &items[i]);
                proof {
                    lemma_ser_items_prefix_step(v@->Arr_0, i as int);
                    if i > 0 {
                        assert(out@ =~= before + seq![','] + ser_json(items@[i as int]@));
                    } else {
                        assert(out@ =~= before + ser_json(items@[i as int]@));
                    }
                    assert(ser_json(items@[i as int]@) == ser_json(v@->Arr_0[i as int]));
                }
                i = i + 1;
            }
            out.push(']');
            proof {
                lemma_ser_items_prefix_full(v@->Arr_0);
                assert(out@ =~= pre + ser_json(v@));
            }
        },
        Json::Obj(members) => {
            let ghost pre = out@;
            out.push('{');
            let mut i: usize = 0;
            proof {
                lemma_obj_views(members@);
            }
            while i < members.len()
                invariant
                    0 <= i <= members@.len(),
                    v is Obj,
                    v->Obj_0 == *members,
                    v@ == json_view(Json::Obj(*members)),
                    v@->Obj_0.len() == members@.len(),
                    forall|k: int|
                        0 <= k < members@.len() ==> v@->Obj_0[k] == ((#[trigger] members@[k]).0@,
                        json_view(members@[k].1)),
                    out@ == pre + seq!['{'] + ser_members_prefix(v@->Obj_0, i as int),
                decreases members@.len() - i,
            {
                let ghost before = out@;
                if i > 0 {
                    out.push(',');
                }
                out.push('"');
                let key = crate::text::to_chars(members[i].0.as_str());
                write_escaped(out, &key);
                out.push('"');
                out.push(':');
                proof {
                    assert(decreases_to!(v => v->Obj_0));
                    assert(decreases_to!(v->Obj_0 => v->Obj_0@));
                    assert(decreases_to!(v->Obj_0@ => v->Obj_0@[i as int]));
                    assert(decreases_to!(v->Obj_0@[i as int] => v->Obj_0@[i as int].1));
                }
                write_json(out, &members[i].1);
                proof {
                    lemma_ser_members_prefix_step(v@->Obj_0, i as int);
                    let m = seq!['"'] + esc_str(members@[i as int].0@) + seq!['"'] + seq![':']
                        + ser_json(members@[i as int].1@);
                    if i > 0 {
                        assert(out@ =~= before + seq![','] + m);
                    } else {
                        assert(out@ =~= before + m);
                    }
                }
                i = i + 1;
            }
            out.push('}');
            proof {
                lemma_ser_members_prefix_full(v@->Obj_0);
                assert(out@ =~= pre + ser_json(v@));
            }
        },
    }
}

/// The serialized form of the first `i` items, with a separating comma after
/// each item but the last of the whole list.
pub open spec fn ser_items_prefix(items: Seq<JsonView>, i: int) -> Seq<char>
    decreases i,
{
    if i <= 0 {
        Seq::<char>::empty()
    } else if i == 1 {
        ser_json(items[0])
    } else {
        ser_items_prefix(items, i - 1) + seq![','] + ser_json(items[i - 1])
    }
}

proof fn lemma_ser_items_prefix_step(items: Seq<JsonView>, i: int)
    requires
        0 <= i < items.len(),
    ensures
        ser_items_prefix(items, i + 1) == if i == 0 {
            ser_items_prefix(items, i) + ser_json(items[i])
        } else {
            ser_items_prefix(items, i) + seq![','] + ser_json(items[i])
        },
{
    if i == 0 {
        assert(ser_items_prefix(items, 1) =~= Seq::<char>::empty() + ser_json(items[0]));
    }
}

proof fn lemma_ser_items_prefix_full(items: Seq<JsonView>)
    ensures
        ser_items(items) == ser_items_prefix(items, items.len() as int),
    decreases items.len(),
{
    if items.len() == 0 {
    } else if items.len() == 1 {
    } else {
        lemma_ser_items_prefix_full(items.drop_first());
        lemma_prefix_shift(items, items.len() as int);
    }
}

proof fn lemma_prefix_shift(items: Seq<JsonView>, i: int)
    requires
        items.len() >= 1,
        1 <= i <= items.len(),
    ensures
        ser_items_prefix(items, i) == if i == 1 {
            ser_json(items[0])
        } else {
            ser_json(items[0]) + seq![','] + ser_items_prefix(items.drop_first(), i - 1)
        },
    decreases i,
{
    if i == 1 {
    } else if i == 2 {
        assert(items.drop_first()[0] == items[1]);
        assert(ser_json(items[0]) + seq![','] + ser_items_prefix(items.drop_first(), 1)
            =~= ser_items_prefix(items, 1) + seq![','] + ser_json(items[1]));
    } else {
        lemma_prefix_shift(items, i - 1);
        assert(items.drop_first()[i - 2] == items[i - 1]);
        assert(ser_json(items[0]) + seq![','] + (ser_items_prefix(items.drop_first(), i - 2)
            + seq![','] + ser_json(items[i - 1])) =~= (ser_json(items[0]) + seq![',']
            + ser_items_prefix(items.drop_first(), i - 2)) + seq![','] + ser_json(items[i - 1]));
    }
}

/// The serialized form of the first `i` members.
pub open spec fn ser_members_prefix(members: Seq<(Seq<char>, JsonView)>, i: int) -> Seq<char>
    decreases i,
{
    if i <= 0 {
        Seq::<char>::empty()
    } else {
        let m = seq!['"'] + esc_str(members[i - 1].0) + seq!['"'] + seq![':'] + ser_json(
            members[i - 1].1,
        );
        if i == 1 {
            m
        } else {
            ser_members_prefix(members, i - 1) + seq![','] + m
        }
    }
}

proof fn lemma_ser_members_prefix_step(members: Seq<(Seq<char>, JsonView)>, i: int)
    requires
        0 <= i < members.len(),
    ensures
        ser_members_prefix(members, i + 1) == ({
            let m = seq!['"'] + esc_str(members[i].0) + seq!['"'] + seq![':'] + ser_json(
                members[i].1,
            );
            if i == 0 {
                ser_members_prefix(members, i) + m
            } else {
                ser_members_prefix(members, i) + seq![','] + m
            }
        }),
{
    if i == 0 {
        let m = seq!['"'] + esc_str(members[0].0) + seq!['"'] + seq![':'] + ser_json(members[0].1);
        assert(ser_members_prefix(members, 1) =~= Seq::<char>::empty() + m);
    }
}

proof fn lemma_ser_members_prefix_full(members: Seq<(Seq<char>, JsonView)>)
    ensures
        ser_members(members) == ser_members_prefix(members, members.len() as int),
    decreases members.len(),
{
    if members.len() == 0 {
    } else if members.len() == 1 {
    } else {
        lemma_ser_members_prefix_full(members.drop_first());
        lemma_members_prefix_shift(members, members.len() as int);
    }
}

proof fn lemma_members_prefix_shift(members: Seq<(Seq<char>, JsonView)>, i: int)
    requires
        members.len() >= 1,
        1 <= i <= members.len(),
    ensures
        ser_members_prefix(members, i) == ({
            let m0 = seq!['"'] + esc_str(members[0].0) + seq!['"'] + seq![':'] + ser_json(
                members[0].1,
            );
            if i == 1 {
                m0
            } else {
                m0 + seq![','] + ser_members_prefix(members.drop_first(), i - 1)
            }
        }),
    decreases i,
{
    let m0 = seq!['"'] + esc_str(members[0].0) + seq!['"'] + seq![':'] + ser_json(members[0].1);
    if i == 1 {
    } else if i == 2 {
        assert(members.drop_first()[0] == members[1]);
        let m1 = seq!['"'] + esc_str(members[1].0) + seq!['"'] + seq![':'] + ser_json(
            members[1].1,
        );
        assert(m0 + seq![','] + ser_members_prefix(members.drop_first(), 1) =~= ser_members_prefix(
            members,
            1,
        ) + seq![','] + m1);
    } else {
        lemma_members_prefix_shift(members, i - 1);
        assert(members.drop_first()[i - 2] == members[i - 1]);
        let mi = seq!['"'] + esc_str(members[i - 1].0) + seq!['"'] + seq![':'] + ser_json(
            members[i - 1].1,
        );
        assert(m0 + seq![','] + (ser_members_prefix(members.drop_first(), i - 2) + seq![','] + mi)
            =~= (m0 + seq![','] + ser_members_prefix(members.drop_first(), i - 2)) + seq![',']
            + mi);
    }
}

/// Appends all of `src` to `out`.
fn append_vec(out: &mut Vec<char>, src: &Vec<char>)
    ensures
        final(out)@ == old(out)@ + src@,
{
    let mut i: usize = 0;
    proof {
        assert(out@ =~= old(out)@ + src@.take(0));
    }
    while i < src.len()
        invariant
            0 <= i <= src@.len(),
            out@ == old(out)@ + src@.take(i as int),
        decreases src@.len() - i,
    {
        proof {
            assert(src@.take(i as int + 1) =~= src@.take(i as int).push(src@[i as int]));
            assert(old(out)@ + src@.take(i as int + 1) =~= (old(out)@ + src@.take(i as int)).push(
                src@[i as int],
            ));
        }
        out.push(src[i]);
        i = i + 1;
    }
    proof {
        assert(src@.take(src@.len() as int) =~= src@);
    }
}

/// Serializes `v` to its compact textual form.
pub fn json_to_string(v: &Json) -> (r: String)
    ensures
        r@ == ser_json(v@),
{
    let mut out: Vec<char> = Vec::new();
    write_json(&mut out, v);
    crate::text::from_chars(&out)
}

/// JSON whitespace.
pub open spec fn is_json_ws(c: char) -> bool {
    c == ' ' || c == '\t' || c == '\n' || c == '\r'
}

/// Length of the leading JSON whitespace.
pub open spec fn jws_len(s: Seq<char>) -> int
    decreases s.len(),
{
    if s.len() == 0 || !is_json_ws(s[0]) {
        0
    } else {
        1 + jws_len(s.drop_first())
    }
}

/// `s` with leading JSON whitespace removed.
pub open spec fn skip_jws(s: Seq<char>) -> Seq<char> {
    s.skip(jws_len(s))
}

/// The whitespace prefix length is within bounds, and what remains starts
/// with a non-whitespace character.
pub proof fn lemma_jws(s: Seq<char>)
    ensures
        0 <= jws_len(s) <= s.len(),
        skip_jws(s).len() == s.len() - jws_len(s),
        skip_jws(s).len() > 0 ==> !is_json_ws(skip_jws(s)[0]),
        forall|k: int| 0 <= k < jws_len(s) ==> is_json_ws(#[trigger] s[k]),
    decreases s.len(),
{
    if s.len() == 0 || !is_json_ws(s[0]) {
        assert(skip_jws(s) =~= s);
    } else {
        lemma_jws(s.drop_first());
        assert(skip_jws(s) =~= skip_jws(s.drop_first()));
        assert forall|k: int| 0 <= k < jws_len(s) implies is_json_ws(#[trigger] s[k]) by {
            if k > 0 {
                assert(s.drop_first()[k - 1] == s[k]);
            }
        }
    }
}

/// A sequence that does not start with whitespace loses nothing.
pub proof fn lemma_jws_zero(s: Seq<char>)
    requires
        s.len() == 0 || !is_json_ws(s[0]),
    ensures
        skip_jws(s) == s,
{
    assert(skip_jws(s) =~= s);
}

/// Value of a hex digit character, or `-1`.
pub open spec fn hex_val(c: char) -> int {
    if is_digit(c) {
        digit_val(c) as int
    } else if c == 'a' || c == 'A' {
        10
    } else if c == 'b' || c == 'B' {
        11
    } else if c == 'c' || c == 'C' {
        12
    } else if c == 'd' || c == 'D' {
        13
    } else if c == 'e' || c == 'E' {
        14
    } else if c == 'f' || c == 'F' {
        15
    } else {
        -1
    }
}

/// The single character a short escape stands for, if the escape is valid.
pub open spec fn unescape(c: char) -> Option<char> {
    if c == '"' {
        Option::Some('"')
    } else if c == '\\' {
        Option::Some('\\')
    } else if c == '/' {
        Option::Some('/')
    } else if c == 'b' {
        Option::Some('\u{8}')
    } else if c == 'f' {
        Option::Some('\u{c}')
    } else if c == 'n' {
        Option::Some('\n')
    } else if c == 'r' {
        Option::Some('\r')
    } else if c == 't' {
        Option::Some('\t')
    } else {
        Option::None
    }
}

/// True when a code value can be a `char`: not a surrogate. Four hex digits
/// never pass 0xFFFF.
pub open spec fn valid_bmp_scalar(n: int) -> bool {
    0 <= n < 0xD800 || 0xDFFF < n <= 0xFFFF
}

/// Parses the body of a string after its opening quote, up to and past the
/// closing quote.
pub open spec fn parse_string(s: Seq<char>) -> Option<(Seq<char>, Seq<char>)>
    decreases s.len(),
{
    if s.len() == 0 {
        Option::None
    } else if s[0] == '"' {
        Option::Some((Seq::<char>::empty(), s.skip(1)))
    } else if s[0] == '\\' {
        if s.len() < 2 {
            Option::None
        } else if s[1] == 'u' {
            if s.len() < 6 {
                Option::None
            } else {
                let n = hex_val(s[2]) * 4096 + hex_val(s[3]) * 256 + hex_val(s[4]) * 16 + hex_val(
                    s[5],
                );
                if hex_val(s[2]) >= 0 && hex_val(s[3]) >= 0 && hex_val(s[4]) >= 0 && hex_val(s[5])
                    >= 0 && valid_bmp_scalar(n) {
                    match parse_string(s.skip(6)) {
                        Option::Some((body, rest)) => Option::Some(
                            (seq![(n as u32) as char] + body, rest),
                        ),
                        Option::None => Option::None,
                    }
                } else {
                    Option::None
                }
            }
        } else {
            match unescape(s[1]) {
                Option::Some(c) => match parse_string(s.skip(2)) {
                    Option::Some((body, rest)) => Option::Some((seq![c] + body, rest)),
                    Option::None => Option::None,
                },
                Option::None => Option::None,
            }
        }
    } else {
        match parse_string(s.skip(1)) {
            Option::Some((body, rest)) => Option::Some((seq![s[0]] + body, rest)),
            Option::None => Option::None,
        }
    }
}

/// Length of the leading run of decimal digits.
pub open spec fn digit_run_len(s: Seq<char>) -> int
    decreases s.len(),
{
    if s.len() == 0 || !is_digit(s[0]) {
        0
    } else {
        1 + digit_run_len(s.drop_first())
    }
}

pub proof fn lemma_digit_run(s: Seq<char>)
    ensures
        0 <= digit_run_len(s) <= s.len(),
        forall|k: int| 0 <= k < digit_run_len(s) ==> is_digit(#[trigger] s[k]),
        digit_run_len(s) < s.len() ==> !is_digit(s[digit_run_len(s)]),
    decreases s.len(),
{
    if s.len() == 0 || !is_digit(s[0]) {
    } else {
        lemma_digit_run(s.drop_first());
        assert forall|k: int| 0 <= k < digit_run_len(s) implies is_digit(#[trigger] s[k]) by {
            if k > 0 {
                assert(s.drop_first()[k - 1] == s[k]);
            }
        }
        if digit_run_len(s) < s.len() {
            assert(s.drop_first()[digit_run_len(s) - 1] == s[digit_run_len(s)]);
        }
    }
}

/// Parses a number at the head of `t` (no leading whitespace).
pub open spec fn parse_number(t: Seq<char>) -> Option<(JsonView, Seq<char>)> {
    let neg = t.len() > 0 && t[0] == '-';
    let d = if neg {
        t.skip(1)
    } else {
        t
    };
    let k = digit_run_len(d);
    if k == 0 {
        Option::None
    } else {
        let after = d.skip(k);
        if after.len() > 0 && (after[0] == '.' || after[0] == 'e' || after[0] == 'E') {
            Option::None
        } else if decimal_val(d.take(k)) > u64::MAX {
            Option::None
        } else {
            let m = decimal_val(d.take(k)) as int;
            Option::Some(
                (JsonView::Num(
                    if neg {
                        -m
                    } else {
                        m
                    },
                ), after),
            )
        }
    }
}

/// Parses one JSON value, consuming leading whitespace.
pub open spec fn parse_value(s: Seq<char>) -> Option<(JsonView, Seq<char>)>
    decreases s.len(), 1int,
{
    let t = skip_jws(s);
    if t.len() == 0 {
        Option::None
    } else if t[0] == 'n' {
        if crate::text::starts_with(t, "null"@) {
            Option::Some((JsonView::Null, t.skip(4)))
        } else {
            Option::None
        }
    } else if t[0] == 't' {
        if crate::text::starts_with(t, "true"@) {
            Option::Some((JsonView::Bool(true), t.skip(4)))
        } else {
            Option::None
        }
    } else if t[0] == 'f' {
        if crate::text::starts_with(t, "false"@) {
            Option::Some((JsonView::Bool(false), t.skip(5)))
        } else {
            Option::None
        }
    } else if t[0] == '"' {
        match parse_string(t.skip(1)) {
            Option::Some((body, rest)) => Option::Some((JsonView::Str(body), rest)),
            Option::None => Option::None,
        }
    } else if t[0] == '[' {
        let u = skip_jws(t.skip(1));
        if u.len() > 0 && u[0] == ']' {
            Option::Some((JsonView::Arr(Seq::<JsonView>::empty()), u.skip(1)))
        } else if t.skip(1).len() < s.len() {
            match parse_items(t.skip(1)) {
                Option::Some((items, rest)) => Option::Some((JsonView::Arr(items), rest)),
                Option::None => Option::None,
            }
        } else {
            Option::None
        }
    } else if t[0] == '{' {
        let u = skip_jws(t.skip(1));
        if u.len() > 0 && u[0] == '}' {
            Option::Some(
                (JsonView::Obj(Seq::<(Seq<char>, JsonView)>::empty()), u.skip(1)),
            )
        } else if t.skip(1).len() < s.len() {
            match parse_members(t.skip(1)) {
                Option::Some((members, rest)) => Option::Some((JsonView::Obj(members), rest)),
                Option::None => Option::None,
            }
        } else {
            Option::None
        }
    } else if t[0] == '-' || is_digit(t[0]) {
        parse_number(t)
    } else {
        Option::None
    }
}

/// Parses one or more comma-separated items and the closing bracket.
pub open spec fn parse_items(s: Seq<char>) -> Option<(Seq<JsonView>, Seq<char>)>
    decreases s.len(), 2int,
{
    match parse_value(s) {
        Option::None => Option::None,
        Option::Some((v, r0)) => {
            if r0.len() < s.len() {
                let r = skip_jws(r0);
                if r.len() > 0 && r[0] == ',' {
                    if r.skip(1).len() < s.len() {
                        match parse_items(r.skip(1)) {
                            Option::Some((items, rest)) => Option::Some(
                                (seq![v] + items, rest),
                            ),
                            Option::None => Option::None,
                        }
                    } else {
                        Option::None
                    }
                } else if r.len() > 0 && r[0] == ']' {
                    Option::Some((seq![v], r.skip(1)))
                } else {
                    Option::None
                }
            } else {
                Option::None
            }
        },
    }
}

/// Parses one or more comma-separated members and the closing brace.
pub open spec fn parse_members(s: Seq<char>) -> Option<(Seq<(Seq<char>, JsonView)>, Seq<char>)>
    decreases s.len(), 2int,
{
    let t = skip_jws(s);
    if t.len() == 0 || t[0] != '"' {
        Option::None
    } else {
        match parse_string(t.skip(1)) {
            Option::None => Option::None,
            Option::Some((key, r1)) => {
                let r2 = skip_jws(r1);
                if r2.len() == 0 || r2[0] != ':' {
                    Option::None
                } else if r2.skip(1).len() < s.len() {
                    match parse_value(r2.skip(1)) {
                        Option::None => Option::None,
                        Option::Some((v, r3)) => {
                            let r = skip_jws(r3);
                            if r.len() > 0 && r[0] == ',' {
                                if r.skip(1).len() < s.len() {
                                    match parse_members(r.skip(1)) {
                                        Option::Some((members, rest)) => Option::Some(
                                            (seq![(key, v)] + members, rest),
                                        ),
                                        Option::None => Option::None,
                                    }
                                } else {
                                    Option::None
                                }
                            } else if r.len() > 0 && r[0] == '}' {
                                Option::Some((seq![(key, v)], r.skip(1)))
                            } else {
                                Option::None
                            }
                        },
                    }
                } else {
                    Option::None
                }
            },
        }
    }
}

/// Parses a complete JSON text: one value and nothing but whitespace after.
pub open spec fn parse_text(s: Seq<char>) -> Option<JsonView> {
    match parse_value(s) {
        Option::Some((v, rest)) => {
            if skip_jws(rest).len() == 0 {
                Option::Some(v)
            } else {
                Option::None
            }
        },
        Option::None => Option::None,
    }
}

/// A serialized value is nonempty and starts with a value character: a
/// letter opening a keyword, a quote, a bracket, a brace, a minus or a digit.
pub proof fn lemma_ser_first(v: JsonView)
    ensures
        ser_json(v).len() >= 1,
        ({
            let c = ser_json(v)[0];
            c == 'n' || c == 't' || c == 'f' || c == '"' || c == '[' || c == '{' || c == '-'
                || is_digit(c)
        }),
{
    reveal_strlit("null");
    reveal_strlit("true");
    reveal_strlit("false");
    match v {
        JsonView::Null => {},
        JsonView::Bool(b) => {},
        JsonView::Num(n) => {
            if n < 0 {
                assert(ser_json(v)[0] == '-');
            } else {
                lemma_decimal_digits_val(n as nat);
                assert(is_digit(decimal_digits(n as nat)[0]));
            }
        },
        JsonView::Str(s0) => {
            assert(ser_json(v)[0] == '"');
        },
        JsonView::Arr(items) => {
            assert(ser_json(v)[0] == '[');
        },
        JsonView::Obj(members) => {
            assert(ser_json(v)[0] == '{');
        },
    }
}

/// No value starts with whitespace, a comma, or a closing delimiter.
pub proof fn lemma_ser_first_not(v: JsonView)
    ensures
        ser_json(v).len() >= 1,
        !is_json_ws(ser_json(v)[0]),
        ser_json(v)[0] != ']',
        ser_json(v)[0] != '}',
        ser_json(v)[0] != ',',
{
    lemma_ser_first(v);
}

/// Reading a hex digit back gives the value it encodes.
proof fn lemma_hex_char_val(d: nat)
    requires
        d < 16,
    ensures
        hex_val(hex_char(d)) == d,
{
}

/// A run of digits with a non-digit terminator has exactly that length.
proof fn lemma_digit_run_exact(s: Seq<char>, k: int)
    requires
        0 <= k <= s.len(),
        forall|j: int| 0 <= j < k ==> is_digit(#[trigger] s[j]),
        k == s.len() || !is_digit(s[k]),
    ensures
        digit_run_len(s) == k,
    decreases k,
{
    if k == 0 {
    } else {
        assert(is_digit(s[0]));
        lemma_digit_run_exact(s.drop_first(), k - 1);
    }
}

/// Parsing the escaped body of a string, followed by the closing quote and
/// anything after it, yields the unescaped characters and the trailing text.
proof fn lemma_parse_esc_str(body: Seq<char>, rest: Seq<char>)
    ensures
        parse_string(esc_str(body) + (seq!['"'] + rest)) == Option::Some((body, rest)),
    decreases body.len(),
{
    let s = esc_str(body) + (seq!['"'] + rest);
    if body.len() == 0 {
        assert(esc_str(body) =~= Seq::<char>::empty());
        assert(s =~= seq!['"'] + rest);
        assert(s[0] == '"');
        assert(s.skip(1) =~= rest);
    } else {
        let c = body.first();
        let tail = body.drop_first();
        lemma_parse_esc_str(tail, rest);
        let srest = esc_str(tail) + (seq!['"'] + rest);
        assert(esc_str(body) == esc_char(c) + esc_str(tail));
        if c == '"' {
            assert(s[0] == '\\' && s[1] == '"');
            assert(s.skip(2) =~= srest);
            assert(seq!['"'] + tail =~= body);
        } else if c == '\\' {
            assert(s[0] == '\\' && s[1] == '\\');
            assert(s.skip(2) =~= srest);
            assert(seq!['\\'] + tail =~= body);
        } else if (c as u32) < 32 {
            let u = c as u32;
            assert(s[0] == '\\' && s[1] == 'u' && s[2] == '0' && s[3] == '0' && s[4] == hex_char(
                (u / 16) as nat,
            ) && s[5] == hex_char((u % 16) as nat));
            assert(s.len() >= 6);
            assert(hex_val('0') == 0);
            lemma_hex_char_val((u / 16) as nat);
            lemma_hex_char_val((u % 16) as nat);
            let n = hex_val(s[2]) * 4096 + hex_val(s[3]) * 256 + hex_val(s[4]) * 16 + hex_val(
                s[5],
            );
            assert(n == (u / 16) * 16 + (u % 16));
            assert(n == u) by {
                vstd::arithmetic::div_mod::lemma_fundamental_div_mod(u as int, 16);
            }
            assert(valid_bmp_scalar(n));
            assert(s.skip(6) =~= srest);
            assert((n as u32) == u);
            vstd::utf8::char_u32_cast(c, u);
            assert((u as char) == c);
            assert((n as u32) as char == (u as char));
            assert(seq![c] + tail =~= body);
        } else {
            assert(s[0] == c);
            assert(s[0] != '"' && s[0] != '\\');
            assert(s.skip(1) =~= srest);
            assert(seq![c] + tail =~= body);
        }
    }
}

/// True when the text after a number cannot extend it.
pub open spec fn number_boundary(rest: Seq<char>) -> bool {
    rest.len() > 0 ==> !(is_digit(rest[0]) || rest[0] == '.' || rest[0] == 'e' || rest[0] == 'E')
}

/// Parsing a serialized number followed by a boundary yields the number.
proof fn lemma_parse_ser_num(n: int, rest: Seq<char>)
    requires
        -(u64::MAX as int) <= n <= u64::MAX as int,
        number_boundary(rest),
    ensures
        parse_number(ser_num(n) + rest) == Option::Some((JsonView::Num(n), rest)),
{
    let t = ser_num(n) + rest;
    if n < 0 {
        let digits = decimal_digits((-n) as nat);
        lemma_decimal_digits_val((-n) as nat);
        assert(t[0] == '-');
        assert(!is_digit('-'));
        let d = t.skip(1);
        assert(d =~= digits + rest);
        assert forall|j: int| 0 <= j < digits.len() implies is_digit(#[trigger] d[j]) by {
            assert(d[j] == digits[j]);
        }
        if d.len() > digits.len() {
            assert(d[digits.len() as int] == rest[0]);
        }
        lemma_digit_run_exact(d, digits.len() as int);
        assert(d.take(digits.len() as int) =~= digits);
        assert(d.skip(digits.len() as int) =~= rest);
        assert(decimal_val(digits) == -n);
    } else {
        let digits = decimal_digits(n as nat);
        lemma_decimal_digits_val(n as nat);
        assert(t.len() > 0);
        assert(t[0] == digits[0]);
        assert(is_digit(t[0]));
        assert(t[0] != '-') by {
            assert(!is_digit('-'));
        }
        assert forall|j: int| 0 <= j < digits.len() implies is_digit(#[trigger] t[j]) by {
            assert(t[j] == digits[j]);
        }
        if t.len() > digits.len() {
            assert(t[digits.len() as int] == rest[0]);
        }
        lemma_digit_run_exact(t, digits.len() as int);
        assert(t.take(digits.len() as int) =~= digits);
        assert(t.skip(digits.len() as int) =~= rest);
        assert(decimal_val(digits) == n);
    }
}

/// A value whose text begins with a bracket parses as the array its items
/// parse to.
proof fn lemma_value_arr_case(s: Seq<char>, items: Seq<JsonView>, rest: Seq<char>)
    requires
        s.len() > 0,
        skip_jws(s) == s,
        s[0] == '[',
        skip_jws(s.skip(1)) == s.skip(1),
        s.skip(1).len() > 0,
        s.skip(1)[0] != ']',
        parse_items(s.skip(1)) == Option::Some((items, rest)),
    ensures
        parse_value(s) == Option::Some((JsonView::Arr(items), rest)),
{
    assert(s.skip(1).len() < s.len());
}

/// A value whose text begins with a brace parses as the object its members
/// parse to.
proof fn lemma_value_obj_case(
    s: Seq<char>,
    members: Seq<(Seq<char>, JsonView)>,
    rest: Seq<char>,
)
    requires
        s.len() > 0,
        skip_jws(s) == s,
        s[0] == '{',
        skip_jws(s.skip(1)) == s.skip(1),
        s.skip(1).len() > 0,
        s.skip(1)[0] != '}',
        parse_members(s.skip(1)) == Option::Some((members, rest)),
    ensures
        parse_value(s) == Option::Some((JsonView::Obj(members), rest)),
{
    assert(s.skip(1).len() < s.len());
}

/// Parsing a serialized value followed by a boundary yields the value.
#[verifier::rlimit(100)]
pub proof fn lemma_parse_ser_value(v: JsonView, rest: Seq<char>)
    requires
        json_wf(v),
        number_boundary(rest),
    ensures
        parse_value(ser_json(v) + rest) == Option::Some((v, rest)),
    decreases v, 1int,
{
    reveal_strlit("null");
    reveal_strlit("true");
    reveal_strlit("false");
    let s = ser_json(v) + rest;
    lemma_ser_first_not(v);
    lemma_jws_zero(s);
    assert(skip_jws(s) == s);
    match v {
        JsonView::Null => {
            assert(s[0] == 'n');
            assert(s.subrange(0, 4) =~= "null"@);
            assert(crate::text::starts_with(s, "null"@));
            assert(s.skip(4) =~= rest);
        },
        JsonView::Bool(b) => {
            if b {
                assert(s[0] == 't');
                assert(s.subrange(0, 4) =~= "true"@);
                assert(crate::text::starts_with(s, "true"@));
                assert(s.skip(4) =~= rest);
            } else {
                assert(s[0] == 'f');
                assert(s.subrange(0, 5) =~= "false"@);
                assert(crate::text::starts_with(s, "false"@));
                assert(s.skip(5) =~= rest);
            }
        },
        JsonView::Num(n) => {
            lemma_parse_ser_num(n, rest);
            assert(s =~= ser_num(n) + rest);
            assert(s[0] == '-' || is_digit(s[0]));
            assert(s[0] != 'n' && s[0] != 't' && s[0] != 'f' && s[0] != '"' && s[0] != '['
                && s[0] != '{') by {
                assert(!is_digit('n') && !is_digit('t') && !is_digit('f') && !is_digit('"')
                    && !is_digit('[') && !is_digit('{'));
            }
        },
        JsonView::Str(body) => {
            assert(s[0] == '"');
            lemma_parse_esc_str(body, rest);
            assert(s.skip(1) =~= esc_str(body) + (seq!['"'] + rest));
            assert(parse_value(s) =~~= Option::Some((v, rest)));
        },
        JsonView::Arr(items) => {
            assert(s[0] == '[');
            let inner = s.skip(1);
            if items.len() == 0 {
                assert(items =~= Seq::<JsonView>::empty());
                assert(ser_items(items) =~= Seq::<char>::empty());
                assert(inner =~= seq![']'] + rest);
                assert(inner[0] == ']');
                lemma_jws_zero(inner);
                assert(skip_jws(inner).skip(1) =~= rest);
                assert(parse_value(s) =~~= Option::Some((v, rest)));
            } else {
                assert(inner =~= ser_items(items) + (seq![']'] + rest));
                assert(decreases_to!(v => items));
                lemma_parse_ser_items(items, rest);
                let head = items[0];
                assert(decreases_to!(items => items[0]));
                lemma_ser_first_not(head);
                assert(ser_items(items)[0] == ser_json(head)[0]);
                assert(inner[0] == ser_json(head)[0]);
                lemma_jws_zero(inner);
                assert(skip_jws(inner)[0] != ']');
                assert(inner.len() < s.len());
                let t = skip_jws(s);
                assert(t == s);
                assert(t[0] == '[');
                assert(t.skip(1) == inner);
                assert(skip_jws(t.skip(1)) == inner);
                assert(skip_jws(t.skip(1)).len() > 0 && skip_jws(t.skip(1))[0] != ']');
                assert(t.skip(1).len() < s.len());
                assert(inner == ser_items(items) + (seq![']'] + rest));
                assert(parse_items(t.skip(1)) == Option::Some((items, rest)));
                lemma_value_arr_case(s, items, rest);
            }
        },
        JsonView::Obj(members) => {
            assert(s[0] == '{');
            let inner = s.skip(1);
            if members.len() == 0 {
                assert(members =~= Seq::<(Seq<char>, JsonView)>::empty());
                assert(ser_members(members) =~= Seq::<char>::empty());
                assert(inner =~= seq!['}'] + rest);
                assert(inner[0] == '}');
                lemma_jws_zero(inner);
                assert(skip_jws(inner).skip(1) =~= rest);
                assert(parse_value(s) =~~= Option::Some((v, rest)));
            } else {
                assert(inner =~= ser_members(members) + (seq!['}'] + rest));
                assert(decreases_to!(v => members));
                lemma_parse_ser_members(members, rest);
                assert(ser_members(members)[0] == '"');
                assert(inner[0] == '"');
                lemma_jws_zero(inner);
                assert(skip_jws(inner)[0] != '}');
                assert(inner.len() < s.len());
                let t = skip_jws(s);
                assert(t == s);
                assert(t[0] == '{');
                assert(t.skip(1) == inner);
                assert(skip_jws(t.skip(1)) == inner);
                assert(skip_jws(t.skip(1)).len() > 0 && skip_jws(t.skip(1))[0] != '}');
                assert(t.skip(1).len() < s.len());
                assert(inner == ser_members(members) + (seq!['}'] + rest));
                assert(parse_members(t.skip(1)) == Option::Some((members, rest)));
                lemma_value_obj_case(s, members, rest);
            }
        },
    }
}

/// Parsing serialized items, a closing bracket and a trailing text yields
/// the items and the trailing text.
#[verifier::rlimit(100)]
proof fn lemma_parse_ser_items(items: Seq<JsonView>, rest: Seq<char>)
    requires
        items.len() >= 1,
        forall|i: int| 0 <= i < items.len() ==> json_wf(#[trigger] items[i]),
    ensures
        parse_items(ser_items(items) + (seq![']'] + rest)) == Option::Some((items, rest)),
    decreases items, 0int,
{
    let s = ser_items(items) + (seq![']'] + rest);
    let head = items[0];
    assert(decreases_to!(items => items[0]));
    if items.len() == 1 {
        let x = seq![']'] + rest;
        assert(ser_items(items) == ser_json(head));
        assert(s =~= ser_json(head) + x);
        assert(number_boundary(x));
        lemma_parse_ser_value(head, x);
        lemma_ser_first_not(head);
        assert(x.len() < s.len());
        lemma_jws_zero(x);
        assert(x[0] == ']');
        assert(x.skip(1) =~= rest);
        assert(seq![head] =~= items);
    } else {
        let tail = items.drop_first();
        let x = seq![','] + (ser_items(tail) + (seq![']'] + rest));
        assert(ser_items(items) == ser_json(head) + seq![','] + ser_items(tail));
        assert(s =~= ser_json(head) + x);
        assert(x[0] == ',');
        assert(number_boundary(x));
        lemma_parse_ser_value(head, x);
        lemma_ser_first_not(head);
        assert(x.len() < s.len());
        lemma_jws_zero(x);
        assert(x.skip(1) =~= ser_items(tail) + (seq![']'] + rest));
        assert(x.skip(1).len() < s.len());
        assert forall|i: int| 0 <= i < tail.len() implies json_wf(#[trigger] tail[i]) by {
            assert(tail[i] == items[i + 1]);
        }
        lemma_parse_ser_items(tail, rest);
        assert(seq![head] + tail =~= items);
    }
}

/// Parsing serialized members, a closing brace and a trailing text yields
/// the members and the trailing text.
#[verifier::rlimit(100)]
proof fn lemma_parse_ser_members(members: Seq<(Seq<char>, JsonView)>, rest: Seq<char>)
    requires
        members.len() >= 1,
        forall|i: int| 0 <= i < members.len() ==> json_wf((#[trigger] members[i]).1),
    ensures
        parse_members(ser_members(members) + (seq!['}'] + rest)) == Option::Some(
            (members, rest),
        ),
    decreases members, 0int,
{
    let s = ser_members(members) + (seq!['}'] + rest);
    let key = members[0].0;
    let val = members[0].1;
    assert(decreases_to!(members => members[0]));
    assert(decreases_to!(members[0] => members[0].1));
    let m0 = seq!['"'] + esc_str(key) + seq!['"'] + seq![':'] + ser_json(val);
    lemma_jws_zero(s);
    assert(s[0] == '"');
    if members.len() == 1 {
        let x = seq!['}'] + rest;
        assert(ser_members(members) == m0);
        assert(s =~= m0 + x);
        assert(s.skip(1) =~= esc_str(key) + (seq!['"'] + (seq![':'] + (ser_json(val) + x))));
        lemma_parse_esc_str(key, seq![':'] + (ser_json(val) + x));
        let r1 = seq![':'] + (ser_json(val) + x);
        lemma_jws_zero(r1);
        assert(r1[0] == ':');
        assert(r1.skip(1) =~= ser_json(val) + x);
        assert(r1.skip(1).len() < s.len());
        assert(number_boundary(x));
        lemma_parse_ser_value(val, x);
        lemma_jws_zero(x);
        assert(x[0] == '}');
        assert(x.skip(1) =~= rest);
        assert(seq![(key, val)] =~= members);
    } else {
        let tail = members.drop_first();
        let x = seq![','] + (ser_members(tail) + (seq!['}'] + rest));
        assert(ser_members(members) == m0 + seq![','] + ser_members(tail));
        assert(s =~= m0 + x);
        assert(s.skip(1) =~= esc_str(key) + (seq!['"'] + (seq![':'] + (ser_json(val) + x))));
        lemma_parse_esc_str(key, seq![':'] + (ser_json(val) + x));
        let r1 = seq![':'] + (ser_json(val) + x);
        lemma_jws_zero(r1);
        assert(r1[0] == ':');
        assert(r1.skip(1) =~= ser_json(val) + x);
        assert(r1.skip(1).len() < s.len());
        assert(x[0] == ',');
        assert(number_boundary(x));
        lemma_parse_ser_value(val, x);
        lemma_jws_zero(x);
        assert(x.skip(1) =~= ser_members(tail) + (seq!['}'] + rest));
        assert(x.skip(1).len() < s.len());
        assert forall|i: int| 0 <= i < tail.len() implies json_wf((#[trigger] tail[i]).1) by {
            assert(tail[i] == members[i + 1]);
        }
        lemma_parse_ser_members(tail, rest);
        assert(seq![(key, val)] + tail =~= members);
    }
}

/// Round trip: parsing a serialized well-formed value gives the value back.
pub proof fn lemma_json_round_trip(v: JsonView)
    requires
        json_wf(v),
    ensures
        parse_text(ser_json(v)) == Option::Some(v),
{
    assert(ser_json(v) + Seq::<char>::empty() =~= ser_json(v));
    lemma_parse_ser_value(v, Seq::<char>::empty());
    lemma_jws_zero(Seq::<char>::empty());
}

proof fn lemma_jws_via_index(s: Seq<char>, m: int)
    requires
        0 <= m <= s.len(),
        forall|k: int| 0 <= k < m ==> is_json_ws(#[trigger] s[k]),
        m == s.len() || !is_json_ws(s[m]),
    ensures
        jws_len(s) == m,
    decreases m,
{
    if m == 0 {
    } else {
        assert(is_json_ws(s[0]));
        lemma_jws_via_index(s.drop_first(), m - 1);
    }
}

/// Skips JSON whitespace from `i` on.
fn p_ws(v: &Vec<char>, i: usize) -> (j: usize)
    requires
        i <= v@.len(),
    ensures
        i <= j <= v@.len(),
        v@.skip(j as int) == skip_jws(v@.skip(i as int)),
{
    let mut j: usize = i;
    while j < v.len() && (v[j] == ' ' || v[j] == '\t' || v[j] == '\n' || v[j] == '\r')
        invariant
            i <= j <= v@.len(),
            forall|k: int| i <= k < j ==> is_json_ws(#[trigger] v@[k]),
        decreases v@.len() - j,
    {
        j = j + 1;
    }
    proof {
        let t = v@.skip(i as int);
        assert forall|k: int| 0 <= k < j - i implies is_json_ws(#[trigger] t[k]) by {
            assert(t[k] == v@[i + k]);
        }
        if j < v@.len() {
            assert(t[j - i] == v@[j as int]);
        }
        lemma_jws_via_index(t, j - i);
        assert(v@.skip(j as int) =~= t.skip(j - i));
    }
    j
}

/// The value of a hex digit character.
fn p_hex_digit(c: char) -> (r: Option<u32>)
    ensures
        match r {
            Some(d) => hex_val(c) == d && d < 16,
            None => hex_val(c) < 0,
        },
{
    if c == '0' {
        Some(0)
    } else if c == '1' {
        Some(1)
    } else if c == '2' {
        Some(2)
    } else if c == '3' {
        Some(3)
    } else if c == '4' {
        Some(4)
    } else if c == '5' {
        Some(5)
    } else if c == '6' {
        Some(6)
    } else if c == '7' {
        Some(7)
    } else if c == '8' {
        Some(8)
    } else if c == '9' {
        Some(9)
    } else if c == 'a' || c == 'A' {
        Some(10)
    } else if c == 'b' || c == 'B' {
        Some(11)
    } else if c == 'c' || c == 'C' {
        Some(12)
    } else if c == 'd' || c == 'D' {
        Some(13)
    } else if c == 'e' || c == 'E' {
        Some(14)
    } else if c == 'f' || c == 'F' {
        Some(15)
    } else {
        None
    }
}

/// Relies on char::from_u32: a value below 0xD800 or between 0xE000 and
/// 0x10FFFF is a valid scalar and converts to exactly that character.
#[verifier::external_body]
fn char_from_u32(n: u32) -> (r: char)
    requires
        valid_bmp_scalar(n as int),
    ensures
        r == (n as char),
{
    char::from_u32(n).unwrap_or(' ')
}

/// Parses a string body from `i` (after the opening quote).
fn p_string(v: &Vec<char>, i: usize) -> (r: Option<(Vec<char>, usize)>)
    requires
        i <= v@.len(),
    ensures
        match r {
            Some(p) => i <= p.1 <= v@.len() && parse_string(v@.skip(i as int)) == Option::Some(
                (p.0@, v@.skip(p.1 as int)),
            ),
            None => parse_string(v@.skip(i as int)) is None,
        },
    decreases v@.len() - i,
{
    let ghost s = v@.skip(i as int);
    if i == v.len() {
        return None;
    }
    proof {
        assert(s[0] == v@[i as int]);
        assert(s.len() > 0);
    }
    let c = v[i];
    if c == '"' {
        proof {
            assert(s.skip(1) =~= v@.skip(i as int + 1));
        }
        return Some((Vec::new(), i + 1));
    }
    if c == '\\' {
        if i + 1 == v.len() {
            return None;
        }
        proof {
            assert(s[1] == v@[i + 1]);
        }
        let e = v[i + 1];
        if e == 'u' {
            if v.len() - i < 6 {
                return None;
            }
            proof {
                assert(s[2] == v@[i + 2] && s[3] == v@[i + 3] && s[4] == v@[i + 4] && s[5] == v@[i
                    + 5]);
            }
            let d2 = p_hex_digit(v[i + 2]);
            let d3 = p_hex_digit(v[i + 3]);
            let d4 = p_hex_digit(v[i + 4]);
            let d5 = p_hex_digit(v[i + 5]);
            match (d2, d3, d4, d5) {
                (Some(a), Some(b), Some(cc), Some(d)) => {
                    let n: u32 = a * 4096 + b * 256 + cc * 16 + d;
                    proof {
                        assert(n as int == hex_val(s[2]) * 4096 + hex_val(s[3]) * 256 + hex_val(
                            s[4],
                        ) * 16 + hex_val(s[5]));
                    }
                    if n < 0xD800 || (0xDFFF < n && n <= 0xFFFF) {
                        let ch = char_from_u32(n);
                        match p_string(v, i + 6) {
                            Some((body, j)) => {
                                let mut out: Vec<char> = Vec::new();
                                out.push(ch);
                                let mut k: usize = 0;
                                while k < body.len()
                                    invariant
                                        0 <= k <= body@.len(),
                                        out@ == seq![ch] + body@.take(k as int),
                                    decreases body@.len() - k,
                                {
                                    proof {
                                        assert(body@.take(k as int + 1) =~= body@.take(
                                            k as int,
                                        ).push(body@[k as int]));
                                        assert(seq![ch] + body@.take(k as int + 1) =~= (seq![ch]
                                            + body@.take(k as int)).push(body@[k as int]));
                                    }
                                    out.push(body[k]);
                                    k = k + 1;
                                }
                                proof {
                                    assert(body@.take(body@.len() as int) =~= body@);
                                    assert(s.skip(6) =~= v@.skip(i as int + 6));
                                    assert((n as int as u32) == n);
                                }
                                return Some((out, j));
                            },
                            None => {
                                proof {
                                    assert(s.skip(6) =~= v@.skip(i as int + 6));
                                }
                                return None;
                            },
                        }
                    } else {
                        return None;
                    }
                },
                _ => {
                    return None;
                },
            }
        } else {
            let un: Option<char> = if e == '"' {
                Some('"')
            } else if e == '\\' {
                Some('\\')
            } else if e == '/' {
                Some('/')
            } else if e == 'b' {
                Some('\u{8}')
            } else if e == 'f' {
                Some('\u{c}')
            } else if e == 'n' {
                Some('\n')
            } else if e == 'r' {
                Some('\r')
            } else if e == 't' {
                Some('\t')
            } else {
                None
            };
            proof {
                assert(match un {
                    Option::Some(x) => unescape(s[1]) == Option::Some(x),
                    Option::None => unescape(s[1]) is None,
                });
            }
            match un {
                Some(u) => {
                    match p_string(v, i + 2) {
                        Some((body, j)) => {
                            let mut out: Vec<char> = Vec::new();
                            out.push(u);
                            let mut k: usize = 0;
                            while k < body.len()
                                invariant
                                    0 <= k <= body@.len(),
                                    out@ == seq![u] + body@.take(k as int),
                                decreases body@.len() - k,
                            {
                                proof {
                                    assert(body@.take(k as int + 1) =~= body@.take(k as int).push(
                                        body@[k as int],
                                    ));
                                    assert(seq![u] + body@.take(k as int + 1) =~= (seq![u]
                                        + body@.take(k as int)).push(body@[k as int]));
                                }
                                out.push(body[k]);
                                k = k + 1;
                            }
                            proof {
                                assert(body@.take(body@.len() as int) =~= body@);
                                assert(s.skip(2) =~= v@.skip(i as int + 2));
                            }
                            return Some((out, j));
                        },
                        None => {
                            proof {
                                assert(s.skip(2) =~= v@.skip(i as int + 2));
                            }
                            return None;
                        },
                    }
                },
                None => {
                    return None;
                },
            }
        }
    }
    match p_string(v, i + 1) {
        Some((body, j)) => {
            let mut out: Vec<char> = Vec::new();
            out.push(c);
            let mut k: usize = 0;
            while k < body.len()
                invariant
                    0 <= k <= body@.len(),
                    out@ == seq![c] + body@.take(k as int),
                decreases body@.len() - k,
            {
                proof {
                    assert(body@.take(k as int + 1) =~= body@.take(k as int).push(
                        body@[k as int],
                    ));
                    assert(seq![c] + body@.take(k as int + 1) =~= (seq![c] + body@.take(
                        k as int,
                    )).push(body@[k as int]));
                }
                out.push(body[k]);
                k = k + 1;
            }
            proof {
                assert(body@.take(body@.len() as int) =~= body@);
                assert(s.skip(1) =~= v@.skip(i as int + 1));
            }
            Some((out, j))
        },
        None => {
            proof {
                assert(s.skip(1) =~= v@.skip(i as int + 1));
            }
            None
        },
    }
}

/// Parses the digit run starting at `i` as a magnitude.
fn p_magnitude(v: &Vec<char>, i: usize) -> (r: Option<(u64, usize)>)
    requires
        i <= v@.len(),
    ensures
        ({
            let d = v@.skip(i as int);
            let k = digit_run_len(d);
            match r {
                Some(p) => k >= 1 && p.1 == i + k && p.0 == decimal_val(d.take(k)) && decimal_val(
                    d.take(k),
                ) <= u64::MAX,
                None => k == 0 || decimal_val(d.take(k)) > u64::MAX,
            }
        }),
{
    let ghost d = v@.skip(i as int);
    let mut j: usize = i;
    let mut acc: u64 = 0;
    proof {
        lemma_digit_run(d);
    }
    let mut overflowed: bool = false;
    while j < v.len() && crate::text::char_is_digit(v[j])
        invariant
            i <= j <= v@.len(),
            d == v@.skip(i as int),
            forall|k: int| 0 <= k < j - i ==> is_digit(#[trigger] d[k]),
            j - i <= d.len(),
            j < v@.len() ==> v@[j as int] == d[j - i],
            !overflowed ==> acc == decimal_val(d.take(j - i)),
            overflowed ==> decimal_val(d.take(j - i)) > u64::MAX,
            j > i || !overflowed,
        decreases v@.len() - j,
    {
        let c = v[j];
        proof {
            assert(d[j - i] == v@[j as int]);
            assert(d.take(j - i + 1).drop_last() =~= d.take(j - i));
            assert(d.take(j - i + 1).last() == d[j - i]);
        }
        let dv = match p_hex_digit(c) {
            Some(x) => x as u64,
            None => 0,
        };
        proof {
            assert(dv == digit_val(c));
        }
        if overflowed {
            proof {
                let m = j - i;
                assert(decimal_val(d.take(m + 1)) == decimal_val(d.take(m)) * 10 + digit_val(
                    d[m],
                ));
                assert(decimal_val(d.take(m)) * 10 >= decimal_val(d.take(m)));
            }
        } else if acc > (u64::MAX - dv) / 10 {
            overflowed = true;
            proof {
                assert(decimal_val(d.take(j - i + 1)) == acc * 10 + dv);
            }
        } else {
            acc = acc * 10 + dv;
        }
        j = j + 1;
    }
    proof {
        if j < v@.len() {
            assert(d[j - i] == v@[j as int]);
        }
        lemma_digit_run_exact(d, j - i);
    }
    if j == i {
        return None;
    }
    if overflowed {
        return None;
    }
    Some((acc, j))
}

/// Parses a number starting at `i` (no leading whitespace).
fn p_number(v: &Vec<char>, i: usize) -> (r: Option<(Json, usize)>)
    requires
        i < v@.len(),
        v@[i as int] == '-' || is_digit(v@[i as int]),
    ensures
        match r {
            Some(p) => i <= p.1 <= v@.len() && parse_number(v@.skip(i as int)) == Option::Some(
                (p.0@, v@.skip(p.1 as int)),
            ),
            None => parse_number(v@.skip(i as int)) is None,
        },
{
    let ghost t = v@.skip(i as int);
    let total = v.len();
    let neg = v[i] == '-';
    let start = if neg {
        i + 1
    } else {
        i
    };
    proof {
        assert(t[0] == v@[i as int]);
        if neg {
            assert(t.skip(1) =~= v@.skip(i as int + 1));
        } else {
            assert(t.skip(0) =~= t);
        }
    }
    let ghost dseq = if neg {
        t.skip(1)
    } else {
        t
    };
    proof {
        assert(dseq == v@.skip(start as int));
    }
    match p_magnitude(v, start) {
        Some((mag, j)) => {
            proof {
                lemma_digit_run(dseq);
                assert(dseq.skip(digit_run_len(dseq)) =~= v@.skip(j as int));
            }
            let boundary_ok = if j < v.len() {
                let nc = v[j];
                !(nc == '.' || nc == 'e' || nc == 'E')
            } else {
                true
            };
            proof {
                let after = dseq.skip(digit_run_len(dseq));
                if j < v@.len() {
                    assert(after[0] == v@[j as int]);
                }
            }
            if !boundary_ok {
                return None;
            }
            if neg && mag > 0 {
                Some((Json::Num { neg: true, mag }, j))
            } else {
                Some((Json::Num { neg: false, mag }, j))
            }
        },
        None => None,
    }
}

/// Reads the four characters of a keyword.
fn match_lit4(v: &Vec<char>, i: usize, c0: char, c1: char, c2: char, c3: char) -> (r: bool)
    requires
        i <= v@.len(),
    ensures
        r == (i + 4 <= v@.len() && v@[i as int] == c0 && v@[i as int + 1] == c1 && v@[i as int + 2]
            == c2 && v@[i as int + 3] == c3),
{
    let n = v.len();
    n >= 4 && i <= n - 4 && v[i] == c0 && v[i + 1] == c1 && v[i + 2] == c2 && v[i + 3] == c3
}

/// Parses one JSON value starting at `i`.
#[verifier::rlimit(100)]
pub fn p_value(v: &Vec<char>, i: usize) -> (r: Option<(Json, usize)>)
    requires
        i <= v@.len(),
    ensures
        match r {
            Some(p) => i <= p.1 <= v@.len() && parse_value(v@.skip(i as int)) == Option::Some(
                (p.0@, v@.skip(p.1 as int)),
            ),
            None => parse_value(v@.skip(i as int)) is None,
        },
    decreases v@.len() - i, 1int,
{
    let ghost s = v@.skip(i as int);
    let w = p_ws(v, i);
    let ghost t = skip_jws(s);
    proof {
        assert(v@.skip(w as int) == t);
        lemma_jws(s);
    }
    if w == v.len() {
        return None;
    }
    proof {
        assert(t[0] == v@[w as int]);
        assert(t.len() == v@.len() - w);
    }
    let c = v[w];
    if c == 'n' {
        if match_lit4(v, w, 'n', 'u', 'l', 'l') {
            proof {
                reveal_strlit("null");
                assert(t.subrange(0, 4) =~= "null"@);
                assert(crate::text::starts_with(t, "null"@));
                assert(t.skip(4) =~= v@.skip(w as int + 4));
            }
            return Some((Json::Null, w + 4));
        }
        proof {
            reveal_strlit("null");
            if crate::text::starts_with(t, "null"@) {
                assert(t.subrange(0, 4) == "null"@);
                assert(t.subrange(0, 4)[0] == t[0] && t.subrange(0, 4)[1] == t[1] && t.subrange(
                    0,
                    4,
                )[2] == t[2] && t.subrange(0, 4)[3] == t[3]);
                assert(v@[w as int] == t[0] && v@[w as int + 1] == t[1] && v@[w as int + 2] == t[2]
                    && v@[w as int + 3] == t[3]);
            }
        }
        return None;
    }
    if c == 't' {
        if match_lit4(v, w, 't', 'r', 'u', 'e') {
            proof {
                reveal_strlit("true");
                assert(t.subrange(0, 4) =~= "true"@);
                assert(crate::text::starts_with(t, "true"@));
                assert(t.skip(4) =~= v@.skip(w as int + 4));
            }
            return Some((Json::Bool(true), w + 4));
        }
        proof {
            reveal_strlit("true");
            if crate::text::starts_with(t, "true"@) {
                assert(t.subrange(0, 4) == "true"@);
                assert(t.subrange(0, 4)[0] == t[0] && t.subrange(0, 4)[1] == t[1] && t.subrange(
                    0,
                    4,
                )[2] == t[2] && t.subrange(0, 4)[3] == t[3]);
                assert(v@[w as int] == t[0] && v@[w as int + 1] == t[1] && v@[w as int + 2] == t[2]
                    && v@[w as int + 3] == t[3]);
            }
        }
        return None;
    }
    if c == 'f' {
        if match_lit4(v, w, 'f', 'a', 'l', 's') && w + 4 < v.len() && v[w + 4] == 'e' {
            proof {
                reveal_strlit("false");
                assert(t.subrange(0, 5) =~= "false"@);
                assert(crate::text::starts_with(t, "false"@));
                assert(t.skip(5) =~= v@.skip(w as int + 5));
            }
            return Some((Json::Bool(false), w + 5));
        }
        proof {
            reveal_strlit("false");
            if crate::text::starts_with(t, "false"@) {
                assert(t.subrange(0, 5) == "false"@);
                assert(t.subrange(0, 5)[0] == t[0] && t.subrange(0, 5)[1] == t[1] && t.subrange(
                    0,
                    5,
                )[2] == t[2] && t.subrange(0, 5)[3] == t[3] && t.subrange(0, 5)[4] == t[4]);
                assert(v@[w as int] == t[0] && v@[w as int + 1] == t[1] && v@[w as int + 2] == t[2]
                    && v@[w as int + 3] == t[3] && v@[w as int + 4] == t[4]);
            }
        }
        return None;
    }
    if c == '"' {
        proof {
            assert(t.skip(1) =~= v@.skip(w as int + 1));
        }
        match p_string(v, w + 1) {
            Some((body, j)) => {
                return Some((Json::Str(crate::text::from_chars(&body)), j));
            },
            None => {
                return None;
            },
        }
    }
    if c == '[' {
        proof {
            assert(t.skip(1) =~= v@.skip(w as int + 1));
        }
        let u = p_ws(v, w + 1);
        if u < v.len() && v[u] == ']' {
            proof {
                let uu = skip_jws(t.skip(1));
                assert(uu == v@.skip(u as int));
                assert(uu[0] == v@[u as int]);
                assert(uu.skip(1) =~= v@.skip(u as int + 1));
                assert(arr_views(Seq::<Json>::empty()) =~= Seq::<JsonView>::empty());
            }
            return Some((Json::Arr(Vec::new()), u + 1));
        }
        proof {
            let uu = skip_jws(t.skip(1));
            assert(uu == v@.skip(u as int));
            if uu.len() > 0 {
                assert(uu[0] == v@[u as int]);
            }
            assert(t.skip(1).len() < s.len());
        }
        match p_items(v, w + 1) {
            Some((items, j)) => {
                proof {
                    assert(parse_items(v@.skip(w as int + 1)) == Option::Some(
                        (arr_views(items@), v@.skip(j as int)),
                    ));
                }
                return Some((Json::Arr(items), j));
            },
            None => {
                return None;
            },
        }
    }
    if c == '{' {
        proof {
            assert(t.skip(1) =~= v@.skip(w as int + 1));
        }
        let u = p_ws(v, w + 1);
        if u < v.len() && v[u] == '}' {
            proof {
                let uu = skip_jws(t.skip(1));
                assert(uu == v@.skip(u as int));
                assert(uu[0] == v@[u as int]);
                assert(uu.skip(1) =~= v@.skip(u as int + 1));
                assert(obj_views(Seq::<(String, Json)>::empty()) =~= Seq::<
                    (Seq<char>, JsonView),
                >::empty());
            }
            return Some((Json::Obj(Vec::new()), u + 1));
        }
        proof {
            let uu = skip_jws(t.skip(1));
            assert(uu == v@.skip(u as int));
            if uu.len() > 0 {
                assert(uu[0] == v@[u as int]);
            }
            assert(t.skip(1).len() < s.len());
        }
        match p_members(v, w + 1) {
            Some((members, j)) => {
                proof {
                    assert(parse_members(v@.skip(w as int + 1)) == Option::Some(
                        (obj_views(members@), v@.skip(j as int)),
                    ));
                }
                return Some((Json::Obj(members), j));
            },
            None => {
                return None;
            },
        }
    }
    let is_dig = crate::text::char_is_digit(c);
    if c == '-' || is_dig {
        match p_number(v, w) {
            Some((n, j)) => {
                proof {
                    assert(parse_value(s) == parse_number(t));
                }
                return Some((n, j));
            },
            None => {
                return None;
            },
        }
    }
    None
}

/// Parses comma-separated items and the closing bracket, starting at `i`.
fn p_items(v: &Vec<char>, i: usize) -> (r: Option<(Vec<Json>, usize)>)
    requires
        i <= v@.len(),
    ensures
        match r {
            Some(p) => i <= p.1 <= v@.len() && parse_items(v@.skip(i as int)) == Option::Some(
                (arr_views(p.0@), v@.skip(p.1 as int)),
            ),
            None => parse_items(v@.skip(i as int)) is None,
        },
    decreases v@.len() - i, 2int,
{
    let ghost s = v@.skip(i as int);
    match p_value(v, i) {
        None => None,
        Some((val, j0)) => {
            proof {
                if !(v@.skip(j0 as int).len() < s.len()) {
                    assert(parse_items(s) is None);
                }
            }
            if j0 <= i {
                return None;
            }
            let rw = p_ws(v, j0);
            let ghost r = skip_jws(v@.skip(j0 as int));
            proof {
                assert(v@.skip(rw as int) == r);
                if rw < v@.len() {
                    assert(r[0] == v@[rw as int]);
                }
            }
            if rw < v.len() && v[rw] == ',' {
                proof {
                    assert(r.skip(1) =~= v@.skip(rw as int + 1));
                    assert(r.skip(1).len() < s.len());
                }
                match p_items(v, rw + 1) {
                    Some((mut items, j)) => {
                        let ghost old_items = items@;
                        items.insert(0, val);
                        proof {
                            assert(items@.drop_first() =~= old_items);
                            assert(items@[0] == val);
                            lemma_arr_views(items@);
                            lemma_arr_views(old_items);
                            assert(arr_views(items@) =~= seq![val@] + arr_views(old_items)) by {
                                assert forall|k: int|
                                    0 <= k < items@.len() implies arr_views(items@)[k] == (
                                seq![val@] + arr_views(old_items))[k] by {
                                    if k > 0 {
                                        assert(items@[k] == items@.drop_first()[k - 1]);
                                        assert(items@.drop_first()[k - 1] == old_items[k - 1]);
                                    }
                                }
                            }
                        }
                        Some((items, j))
                    },
                    None => None,
                }
            } else if rw < v.len() && v[rw] == ']' {
                proof {
                    assert(r.skip(1) =~= v@.skip(rw as int + 1));
                }
                let mut items: Vec<Json> = Vec::new();
                items.push(val);
                proof {
                    lemma_arr_views(items@);
                    assert(arr_views(items@) =~= seq![val@]);
                }
                Some((items, rw + 1))
            } else {
                None
            }
        },
    }
}

/// Parses comma-separated members and the closing brace, starting at `i`.
fn p_members(v: &Vec<char>, i: usize) -> (r: Option<(Vec<(String, Json)>, usize)>)
    requires
        i <= v@.len(),
    ensures
        match r {
            Some(p) => i <= p.1 <= v@.len() && parse_members(v@.skip(i as int)) == Option::Some(
                (obj_views(p.0@), v@.skip(p.1 as int)),
            ),
            None => parse_members(v@.skip(i as int)) is None,
        },
    decreases v@.len() - i, 2int,
{
    let ghost s = v@.skip(i as int);
    let w = p_ws(v, i);
    let ghost t = skip_jws(s);
    proof {
        assert(v@.skip(w as int) == t);
        if w < v@.len() {
            assert(t[0] == v@[w as int]);
        }
    }
    if w == v.len() {
        return None;
    }
    if v[w] != '"' {
        return None;
    }
    proof {
        assert(t.skip(1) =~= v@.skip(w as int + 1));
    }
    match p_string(v, w + 1) {
        None => None,
        Some((key, j1)) => {
            let r2w = p_ws(v, j1);
            let ghost r2 = skip_jws(v@.skip(j1 as int));
            proof {
                assert(v@.skip(r2w as int) == r2);
                if r2w < v@.len() {
                    assert(r2[0] == v@[r2w as int]);
                }
            }
            if r2w == v.len() {
                return None;
            }
            if v[r2w] != ':' {
                return None;
            }
            proof {
                assert(r2.skip(1) =~= v@.skip(r2w as int + 1));
            }
            if !(r2w + 1 > i) {
                return None;
            }
            proof {
                assert(r2.skip(1).len() < s.len());
            }
            match p_value(v, r2w + 1) {
                None => None,
                Some((val, j3)) => {
                    let rw = p_ws(v, j3);
                    let ghost r = skip_jws(v@.skip(j3 as int));
                    proof {
                        assert(v@.skip(rw as int) == r);
                        if rw < v@.len() {
                            assert(r[0] == v@[rw as int]);
                        }
                    }
                    if rw < v.len() && v[rw] == ',' {
                        proof {
                            assert(r.skip(1) =~= v@.skip(rw as int + 1));
                            assert(r.skip(1).len() < s.len());
                        }
                        match p_members(v, rw + 1) {
                            Some((mut members, j)) => {
                                let ghost old_members = members@;
                                let key_s = crate::text::from_chars(&key);
                                let ghost key_view = key_s@;
                                members.insert(0, (key_s, val));
                                proof {
                                    assert(members@.drop_first() =~= old_members);
                                    assert(members@[0].0@ == key@ && members@[0].1 == val);
                                    lemma_obj_views(members@);
                                    lemma_obj_views(old_members);
                                    assert(obj_views(members@) =~= seq![(key@, val@)]
                                        + obj_views(old_members)) by {
                                        assert forall|k: int|
                                            0 <= k < members@.len() implies obj_views(members@)[k]
                                            == (seq![(key@, val@)] + obj_views(old_members))[k] by {
                                            if k > 0 {
                                                assert(members@[k] == members@.drop_first()[k
                                                    - 1]);
                                                assert(members@.drop_first()[k - 1]
                                                    == old_members[k - 1]);
                                            }
                                        }
                                    }
                                }
                                Some((members, j))
                            },
                            None => None,
                        }
                    } else if rw < v.len() && v[rw] == '}' {
                        proof {
                            assert(r.skip(1) =~= v@.skip(rw as int + 1));
                        }
                        let key_s = crate::text::from_chars(&key);
                        let mut members: Vec<(String, Json)> = Vec::new();
                        members.push((key_s, val));
                        proof {
                            lemma_obj_views(members@);
                            assert(obj_views(members@) =~= seq![(key@, val@)]);
                        }
                        Some((members, rw + 1))
                    } else {
                        None
                    }
                },
            }
        },
    }
}

/// Parses a complete JSON text.
pub fn json_from_str(text: &str) -> (r: Option<Json>)
    ensures
        match r {
            Some(j) => parse_text(text@) == Option::Some(j@),
            None => parse_text(text@) is None,
        },
{
    let v = crate::text::to_chars(text);
    proof {
        assert(v@.skip(0) =~= v@);
    }
    match p_value(&v, 0) {
        Some((j, end)) => {
            let e = p_ws(&v, end);
            if e == v.len() {
                proof {
                    assert(skip_jws(v@.skip(end as int)) =~= Seq::<char>::empty());
                }
                Some(j)
            } else {
                proof {
                    assert(v@.skip(e as int).len() > 0);
                }
                None
            }
        },
        None => None,
    }
}

} // verus!
