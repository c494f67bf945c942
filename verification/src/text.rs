//! Character-level text utilities shared by the analyzers and the codec.
//!
//! All logic works over `Vec<char>` so that every step is verified; the two
//! conversions at the `&str` boundary are the only trusted items here.

use vstd::prelude::*;

verus! {

/// Relies on str::chars: yields exactly the characters of the string.
#[verifier::external_body]
pub fn to_chars(s: &str) -> (r: Vec<char>)
    ensures
        r@ == s@,
{
    s.chars().collect()
}

/// Relies on FromIterator<char> for String: collects exactly the given characters.
#[verifier::external_body]
pub fn from_chars(v: &Vec<char>) -> (r: String)
    ensures
        r@ == v@,
{
    v.iter().collect()
}

/// True for characters in the ASCII range.
pub open spec fn is_ascii_char(c: char) -> bool {
    c as nat <= 127
}

/// True if every character of `s` is ASCII.
pub open spec fn is_ascii_seq(s: Seq<char>) -> bool {
    forall|i: int| 0 <= i < s.len() ==> is_ascii_char(#[trigger] s[i])
}

/// What `char::is_whitespace` returns for a character.
pub uninterp spec fn is_ws(c: char) -> bool;

/// The ASCII characters with the Unicode `White_Space` property.
pub open spec fn is_ascii_ws(c: char) -> bool {
    c == ' ' || c == '\t' || c == '\n' || c == '\r' || c == '\u{b}' || c == '\u{c}'
}

/// Relies on char::is_whitespace: a pure predicate of the character; on ASCII
/// characters it holds exactly for space, tab, line feed, carriage return,
/// vertical tab and form feed.
#[verifier::external_body]
pub fn char_is_whitespace(c: char) -> (r: bool)
    ensures
        r == is_ws(c),
        is_ascii_char(c) ==> r == is_ascii_ws(c),
{
    c.is_whitespace()
}

/// Length of the longest prefix of `s` whose characters satisfy `is_ws`.
pub open spec fn ws_prefix_len(s: Seq<char>) -> int
    decreases s.len(),
{
    if s.len() == 0 || !is_ws(s[0]) {
        0
    } else {
        1 + ws_prefix_len(s.drop_first())
    }
}

/// `s` with leading whitespace removed, as `str::trim_start` leaves it.
pub open spec fn trim_start_spec(s: Seq<char>) -> Seq<char> {
    s.skip(ws_prefix_len(s))
}

/// Length of the longest whitespace suffix of `s`.
pub open spec fn ws_suffix_len(s: Seq<char>) -> int
    decreases s.len(),
{
    if s.len() == 0 || !is_ws(s.last()) {
        0
    } else {
        1 + ws_suffix_len(s.drop_last())
    }
}

/// `s` with trailing whitespace removed.
pub open spec fn trim_end_spec(s: Seq<char>) -> Seq<char> {
    s.take(s.len() - ws_suffix_len(s))
}

/// `s` with leading and trailing whitespace removed, as `str::trim` leaves it.
pub open spec fn trim_spec(s: Seq<char>) -> Seq<char> {
    trim_end_spec(trim_start_spec(s))
}

proof fn lemma_ws_prefix_via_index(s: Seq<char>, i: int)
    requires
        0 <= i <= s.len(),
        forall|k: int| 0 <= k < i ==> is_ws(#[trigger] s[k]),
        i == s.len() || !is_ws(s[i]),
    ensures
        ws_prefix_len(s) == i,
    decreases i,
{
    if i == 0 {
    } else {
        assert(is_ws(s[0]));
        lemma_ws_prefix_via_index(s.drop_first(), i - 1);
    }
}

proof fn lemma_ws_suffix_via_index(s: Seq<char>, i: int)
    requires
        0 <= i <= s.len(),
        forall|k: int| s.len() - i <= k < s.len() ==> is_ws(#[trigger] s[k]),
        i == s.len() || !is_ws(s[s.len() - i - 1]),
    ensures
        ws_suffix_len(s) == i,
    decreases i,
{
    if i == 0 {
    } else {
        assert(is_ws(s.last()));
        lemma_ws_suffix_via_index(s.drop_last(), i - 1);
    }
}

/// Removes leading whitespace.
pub fn chars_trim_start(v: &Vec<char>) -> (r: Vec<char>)
    ensures
        r@ == trim_start_spec(v@),
{
    let mut i: usize = 0;
    while i < v.len() && char_is_whitespace(v[i])
        invariant
            0 <= i <= v@.len(),
            forall|k: int| 0 <= k < i ==> is_ws(#[trigger] v@[k]),
        decreases v@.len() - i,
    {
        i = i + 1;
    }
    proof {
        lemma_ws_prefix_via_index(v@, i as int);
    }
    let mut out: Vec<char> = Vec::new();
    let mut j: usize = i;
    while j < v.len()
        invariant
            i <= j <= v@.len(),
            out@ == v@.subrange(i as int, j as int),
        decreases v@.len() - j,
    {
        proof {
            assert(v@.subrange(i as int, j as int + 1) =~= v@.subrange(i as int, j as int).push(
                v@[j as int],
            ));
        }
        out.push(v[j]);
        j = j + 1;
    }
    proof {
        assert(out@ =~= v@.skip(i as int));
    }
    out
}

/// Removes trailing whitespace.
pub fn chars_trim_end(v: &Vec<char>) -> (r: Vec<char>)
    ensures
        r@ == trim_end_spec(v@),
{
    let mut e: usize = v.len();
    while e > 0 && char_is_whitespace(v[e - 1])
        invariant
            0 <= e <= v@.len(),
            forall|k: int| e <= k < v@.len() ==> is_ws(#[trigger] v@[k]),
        decreases e,
    {
        e = e - 1;
    }
    proof {
        lemma_ws_suffix_via_index(v@, v@.len() - e);
    }
    let mut out: Vec<char> = Vec::new();
    let mut j: usize = 0;
    while j < e
        invariant
            0 <= j <= e <= v@.len(),
            out@ == v@.subrange(0, j as int),
        decreases e - j,
    {
        proof {
            assert(v@.subrange(0, j as int + 1) =~= v@.subrange(0, j as int).push(v@[j as int]));
        }
        out.push(v[j]);
        j = j + 1;
    }
    proof {
        assert(out@ =~= v@.take(e as int));
    }
    out
}

/// Removes leading and trailing whitespace.
pub fn chars_trim(v: &Vec<char>) -> (r: Vec<char>)
    ensures
        r@ == trim_spec(v@),
{
    let t = chars_trim_start(v);
    chars_trim_end(&t)
}

/// The pieces of `s` split at every occurrence of `c`; empty pieces are kept,
/// and the empty string yields one empty piece.
pub open spec fn split_char_spec(s: Seq<char>, c: char) -> Seq<Seq<char>>
    decreases s.len(),
{
    if s.len() == 0 {
        seq![Seq::<char>::empty()]
    } else if s[0] == c {
        seq![Seq::<char>::empty()] + split_char_spec(s.drop_first(), c)
    } else {
        let rest = split_char_spec(s.drop_first(), c);
        seq![seq![s[0]] + rest[0]] + rest.drop_first()
    }
}

pub proof fn lemma_split_char_nonempty(s: Seq<char>, c: char)
    ensures
        split_char_spec(s, c).len() >= 1,
    decreases s.len(),
{
    if s.len() == 0 {
    } else {
        lemma_split_char_nonempty(s.drop_first(), c)
    }
}

/// Puts `p` in front of the first piece of `ss`.
pub open spec fn prepend_first(p: Seq<char>, ss: Seq<Seq<char>>) -> Seq<Seq<char>> {
    seq![p + ss[0]] + ss.drop_first()
}

/// Splits `v` at every occurrence of `c`.
pub fn chars_split(v: &Vec<char>, c: char) -> (r: Vec<Vec<char>>)
    ensures
        r@.len() == split_char_spec(v@, c).len(),
        forall|k: int|
            0 <= k < r@.len() ==> (#[trigger] r@[k])@ == split_char_spec(v@, c)[k],
{
    let mut out: Vec<Vec<char>> = Vec::new();
    let mut cur: Vec<char> = Vec::new();
    let mut i: usize = 0;
    proof {
        lemma_split_char_nonempty(v@, c);
        assert(v@.skip(0) =~= v@);
        assert(Seq::<char>::empty() + split_char_spec(v@, c)[0] =~= split_char_spec(v@, c)[0]);
        assert(prepend_first(cur@, split_char_spec(v@.skip(0), c)) =~= split_char_spec(v@, c));
    }
    while i < v.len()
        invariant
            0 <= i <= v@.len(),
            out@.len() + prepend_first(cur@, split_char_spec(v@.skip(i as int), c)).len()
                == split_char_spec(v@, c).len(),
            forall|k: int|
                0 <= k < out@.len() ==> (#[trigger] out@[k])@ == split_char_spec(v@, c)[k],
            forall|k: int|
                0 <= k < prepend_first(cur@, split_char_spec(v@.skip(i as int), c)).len()
                    ==> #[trigger] prepend_first(cur@, split_char_spec(v@.skip(i as int), c))[k]
                    == split_char_spec(v@, c)[out@.len() + k],
        decreases v@.len() - i,
    {
        let ghost whole = split_char_spec(v@, c);
        proof {
            lemma_split_char_nonempty(v@.skip(i as int + 1), c);
            lemma_split_char_nonempty(v@.skip(i as int), c);
            assert(v@.skip(i as int).drop_first() =~= v@.skip(i as int + 1));
            assert(v@.skip(i as int)[0] == v@[i as int]);
        }
        let ghost prev = split_char_spec(v@.skip(i as int), c);
        let ghost tail = split_char_spec(v@.skip(i as int + 1), c);
        let ch = v[i];
        if ch == c {
            let ghost old_out = out@;
            let ghost old_cur = cur@;
            proof {
                assert(prev =~= seq![Seq::<char>::empty()] + tail);
                assert(prepend_first(old_cur, prev)[0] == old_cur + Seq::<char>::empty());
                assert(old_cur + Seq::<char>::empty() =~= old_cur);
                assert(whole[old_out.len() as int] == old_cur);
            }
            out.push(cur);
            cur = Vec::new();
            proof {
                assert(out@.len() == old_out.len() + 1);
                assert(out@[old_out.len() as int]@ == old_cur);
                assert(Seq::<char>::empty() + tail[0] =~= tail[0]);
                assert forall|k: int|
                    0 <= k < prepend_first(cur@, tail).len() implies #[trigger] prepend_first(
                    cur@,
                    tail,
                )[k] == whole[out@.len() + k] by {
                    assert(prepend_first(old_cur, prev)[k + 1] == whole[old_out.len() + k + 1]);
                    assert(prepend_first(old_cur, prev).drop_first() =~= tail);
                    if k == 0 {
                        assert(prepend_first(cur@, tail)[0] == Seq::<char>::empty() + tail[0]);
                        assert(prepend_first(old_cur, prev)[1] == tail[0]);
                    } else {
                        assert(prepend_first(cur@, tail)[k] == tail[k]);
                        assert(prepend_first(old_cur, prev)[k + 1] == tail[k]);
                    }
                }
            }
        } else {
            let ghost old_cur = cur@;
            cur.push(ch);
            proof {
                assert(prev =~= seq![seq![v@[i as int]] + tail[0]] + tail.drop_first());
                assert(cur@ =~= old_cur.push(ch));
                assert(old_cur + (seq![v@[i as int]] + tail[0]) =~= cur@ + tail[0]);
                assert forall|k: int|
                    0 <= k < prepend_first(cur@, tail).len() implies #[trigger] prepend_first(
                    cur@,
                    tail,
                )[k] == whole[out@.len() + k] by {
                    assert(prepend_first(old_cur, prev)[k] == whole[out@.len() + k]);
                    if k == 0 {
                        assert(prepend_first(old_cur, prev)[0] == old_cur + prev[0]);
                        assert(old_cur + prev[0] =~= cur@ + tail[0]);
                    } else {
                        assert(prepend_first(old_cur, prev)[k] == prev[k]);
                        assert(prev.drop_first() =~= tail.drop_first());
                        assert(prev[k] == tail[k]);
                    }
                }
                assert(prepend_first(cur@, tail).len() == prepend_first(old_cur, prev).len());
            }
        }
        i = i + 1;
    }
    proof {
        assert(v@.skip(i as int) =~= Seq::<char>::empty());
        let last = split_char_spec(v@.skip(i as int), c);
        assert(last =~= seq![Seq::<char>::empty()]);
        assert(prepend_first(cur@, last) =~= seq![cur@ + Seq::<char>::empty()]);
        assert(cur@ + Seq::<char>::empty() =~= cur@);
        assert(prepend_first(cur@, last)[0] == cur@ + Seq::<char>::empty());
        assert(split_char_spec(v@, c)[out@.len() as int] == cur@);
    }
    out.push(cur);
    out
}

/// `s` with every leading and trailing occurrence of `c` removed, as
/// `str::trim_matches` leaves it.
pub open spec fn char_prefix_len(s: Seq<char>, c: char) -> int
    decreases s.len(),
{
    if s.len() == 0 || s[0] != c {
        0
    } else {
        1 + char_prefix_len(s.drop_first(), c)
    }
}

pub open spec fn char_suffix_len(s: Seq<char>, c: char) -> int
    decreases s.len(),
{
    if s.len() == 0 || s.last() != c {
        0
    } else {
        1 + char_suffix_len(s.drop_last(), c)
    }
}

pub open spec fn trim_matches_spec(s: Seq<char>, c: char) -> Seq<char> {
    let t = s.skip(char_prefix_len(s, c));
    t.take(t.len() - char_suffix_len(t, c))
}

proof fn lemma_char_prefix_via_index(s: Seq<char>, c: char, i: int)
    requires
        0 <= i <= s.len(),
        forall|k: int| 0 <= k < i ==> #[trigger] s[k] == c,
        i == s.len() || s[i] != c,
    ensures
        char_prefix_len(s, c) == i,
    decreases i,
{
    if i == 0 {
    } else {
        lemma_char_prefix_via_index(s.drop_first(), c, i - 1);
    }
}

proof fn lemma_char_suffix_via_index(s: Seq<char>, c: char, i: int)
    requires
        0 <= i <= s.len(),
        forall|k: int| s.len() - i <= k < s.len() ==> #[trigger] s[k] == c,
        i == s.len() || s[s.len() - i - 1] != c,
    ensures
        char_suffix_len(s, c) == i,
    decreases i,
{
    if i == 0 {
    } else {
        lemma_char_suffix_via_index(s.drop_last(), c, i - 1);
    }
}

/// Removes every leading and trailing occurrence of `c`.
pub fn chars_trim_matches(v: &Vec<char>, c: char) -> (r: Vec<char>)
    ensures
        r@ == trim_matches_spec(v@, c),
{
    let mut i: usize = 0;
    while i < v.len() && v[i] == c
        invariant
            0 <= i <= v@.len(),
            forall|k: int| 0 <= k < i ==> #[trigger] v@[k] == c,
        decreases v@.len() - i,
    {
        i = i + 1;
    }
    proof {
        lemma_char_prefix_via_index(v@, c, i as int);
    }
    let mut e: usize = v.len();
    while e > i && v[e - 1] == c
        invariant
            i <= e <= v@.len(),
            forall|k: int| e <= k < v@.len() ==> #[trigger] v@[k] == c,
        decreases e,
    {
        e = e - 1;
    }
    let ghost t = v@.skip(i as int);
    proof {
        assert forall|k: int| t.len() - (v@.len() - e) <= k < t.len() implies #[trigger] t[k]
            == c by {
            assert(t[k] == v@[k + i]);
        }
        if e > i {
            assert(t[t.len() - (v@.len() - e) - 1] == v@[e - 1]);
        }
        lemma_char_suffix_via_index(t, c, v@.len() - e);
    }
    let mut out: Vec<char> = Vec::new();
    let mut j: usize = i;
    while j < e
        invariant
            i <= j <= e <= v@.len(),
            out@ == v@.subrange(i as int, j as int),
        decreases e - j,
    {
        proof {
            assert(v@.subrange(i as int, j as int + 1) =~= v@.subrange(i as int, j as int).push(
                v@[j as int],
            ));
        }
        out.push(v[j]);
        j = j + 1;
    }
    proof {
        assert(out@ =~= trim_matches_spec(v@, c));
    }
    out
}

/// True if `c` is an ASCII decimal digit.
pub open spec fn is_digit(c: char) -> bool {
    '0' <= c && c <= '9'
}

/// Numeric value of an ASCII digit.
pub open spec fn digit_val(c: char) -> nat {
    (c as nat - '0' as nat) as nat
}

pub fn char_is_digit(c: char) -> (r: bool)
    ensures
        r == is_digit(c),
{
    let u = c as u32;
    48 <= u && u <= 57
}

/// Value of a digit string read as a decimal number.
pub open spec fn decimal_val(s: Seq<char>) -> nat
    decreases s.len(),
{
    if s.len() == 0 {
        0
    } else {
        decimal_val(s.drop_last()) * 10 + digit_val(s.last())
    }
}

/// True if every character of `s` is an ASCII digit.
pub open spec fn all_digits(s: Seq<char>) -> bool {
    forall|i: int| 0 <= i < s.len() ==> is_digit(#[trigger] s[i])
}

/// Parses a non-empty run of ASCII digits as a `usize`.
/// Returns `None` on an empty string, a non-digit, or overflow.
pub fn parse_decimal(v: &Vec<char>) -> (r: Option<usize>)
    ensures
        match r {
            Some(n) => all_digits(v@) && v@.len() > 0 && n == decimal_val(v@),
            None => v@.len() == 0 || !all_digits(v@) || decimal_val(v@) > usize::MAX,
        },
{
    if v.len() == 0 {
        return None;
    }
    let mut acc: usize = 0;
    let mut i: usize = 0;
    while i < v.len()
        invariant
            0 <= i <= v@.len(),
            all_digits(v@.subrange(0, i as int)),
            acc == decimal_val(v@.subrange(0, i as int)),
        decreases v@.len() - i,
    {
        let c = v[i];
        if !char_is_digit(c) {
            assert(!is_digit(v@[i as int]));
            return None;
        }
        let d = (c as u32 - 48) as usize;
        if acc > (usize::MAX - d) / 10 {
            proof {
                lemma_decimal_val_prefix_monotonic(v@, i as int + 1);
                assert(v@.subrange(0, i as int + 1).drop_last() =~= v@.subrange(0, i as int));
            }
            return None;
        }
        acc = acc * 10 + d;
        proof {
            assert(v@.subrange(0, i as int + 1).drop_last() =~= v@.subrange(0, i as int));
            assert(v@.subrange(0, i as int + 1).last() == v@[i as int]);
        }
        i = i + 1;
    }
    proof {
        assert(v@.subrange(0, v@.len() as int) =~= v@);
    }
    Some(acc)
}

/// A longer digit string (with the same prefix) denotes at least as large a number.
proof fn lemma_decimal_val_prefix_monotonic(s: Seq<char>, i: int)
    requires
        0 < i <= s.len(),
    ensures
        decimal_val(s.subrange(0, i)) <= decimal_val(s),
    decreases s.len() - i,
{
    if i == s.len() {
        assert(s.subrange(0, i) =~= s);
    } else {
        lemma_decimal_val_prefix_monotonic(s, i + 1);
        assert(s.subrange(0, i + 1).drop_last() =~= s.subrange(0, i));
        assert(decimal_val(s.subrange(0, i)) <= decimal_val(s.subrange(0, i + 1)));
    }
}

/// The digits of `n`, most significant first.
pub open spec fn decimal_digits(n: nat) -> Seq<char>
    decreases n,
{
    if n < 10 {
        seq![digit_char(n % 10)]
    } else {
        decimal_digits(n / 10).push(digit_char(n % 10))
    }
}

/// The digit character for a value below ten.
pub open spec fn digit_char(d: nat) -> char {
    if d % 10 == 0 {
        '0'
    } else if d % 10 == 1 {
        '1'
    } else if d % 10 == 2 {
        '2'
    } else if d % 10 == 3 {
        '3'
    } else if d % 10 == 4 {
        '4'
    } else if d % 10 == 5 {
        '5'
    } else if d % 10 == 6 {
        '6'
    } else if d % 10 == 7 {
        '7'
    } else if d % 10 == 8 {
        '8'
    } else {
        '9'
    }
}

pub fn digit_to_char(d: u64) -> (r: char)
    requires
        d < 10,
    ensures
        r == digit_char(d as nat),
{
    if d == 0 {
        '0'
    } else if d == 1 {
        '1'
    } else if d == 2 {
        '2'
    } else if d == 3 {
        '3'
    } else if d == 4 {
        '4'
    } else if d == 5 {
        '5'
    } else if d == 6 {
        '6'
    } else if d == 7 {
        '7'
    } else if d == 8 {
        '8'
    } else {
        '9'
    }
}

/// Formats `n` in decimal, most significant digit first.
pub fn format_decimal(n: u64) -> (r: Vec<char>)
    ensures
        r@ == decimal_digits(n as nat),
{
    let mut rev: Vec<char> = Vec::new();
    let mut m: u64 = n;
    loop
        invariant_except_break
            decimal_digits(n as nat) == decimal_digits(m as nat) + rev@.reverse(),
        ensures
            decimal_digits(n as nat) == rev@.reverse(),
        decreases m,
    {
        let ghost prev = m;
        let d = m % 10;
        let c = digit_to_char(d);
        m = m / 10;
        if m == 0 {
            proof {
                assert(decimal_digits(prev as nat) =~= seq![digit_char(prev as nat % 10)]);
                assert((rev@.push(c)).reverse() =~= seq![c] + rev@.reverse());
            }
            rev.push(c);
            break;
        }
        proof {
            assert(decimal_digits(prev as nat) =~= decimal_digits(prev as nat / 10).push(
                digit_char(prev as nat % 10),
            ));
            assert((rev@.push(c)).reverse() =~= seq![c] + rev@.reverse());
            assert(decimal_digits(prev as nat / 10) + (seq![c] + rev@.reverse())
                =~= decimal_digits(prev as nat / 10).push(digit_char(prev as nat % 10))
                + rev@.reverse());
        }
        rev.push(c);
    }
    let mut out: Vec<char> = Vec::new();
    let mut i: usize = rev.len();
    while i > 0
        invariant
            i <= rev@.len(),
            out@ == rev@.subrange(i as int, rev@.len() as int).reverse(),
        decreases i,
    {
        i = i - 1;
        proof {
            assert(rev@.subrange(i as int, rev@.len() as int).reverse() =~= rev@.subrange(
                i as int + 1,
                rev@.len() as int,
            ).reverse().push(rev@[i as int]));
        }
        out.push(rev[i]);
    }
    proof {
        assert(rev@.subrange(0, rev@.len() as int) =~= rev@);
    }
    out
}

/// The decimal digits of a number are digits, there is at least one, and
/// they read back as the number.
pub proof fn lemma_decimal_digits_val(n: nat)
    ensures
        all_digits(decimal_digits(n)),
        decimal_digits(n).len() >= 1,
        decimal_val(decimal_digits(n)) == n,
    decreases n,
{
    if n < 10 {
        assert(decimal_digits(n) =~= seq![digit_char(n % 10)]);
        assert(decimal_digits(n).drop_last() =~= Seq::<char>::empty());
        assert(decimal_val(Seq::<char>::empty()) == 0);
        assert(is_digit(digit_char(n % 10)));
        assert(digit_val(digit_char(n % 10)) == n);
    } else {
        lemma_decimal_digits_val(n / 10);
        let d = decimal_digits(n);
        assert(d =~= decimal_digits(n / 10).push(digit_char(n % 10)));
        assert(d.drop_last() =~= decimal_digits(n / 10));
        assert(d.last() == digit_char(n % 10));
        assert(is_digit(digit_char(n % 10)));
        assert(digit_val(digit_char(n % 10)) == n % 10);
        assert forall|i: int| 0 <= i < d.len() implies is_digit(#[trigger] d[i]) by {
            if i < d.len() - 1 {
                assert(d[i] == decimal_digits(n / 10)[i]);
            }
        }
        assert(decimal_val(d) == decimal_val(decimal_digits(n / 10)) * 10 + n % 10);
        assert((n / 10) * 10 + n % 10 == n) by {
            vstd::arithmetic::div_mod::lemma_fundamental_div_mod(n as int, 10);
        }
    }
}

/// True if `p` occurs in `s` starting at position `i`.
pub open spec fn occurs_at(s: Seq<char>, p: Seq<char>, i: int) -> bool {
    0 <= i && i + p.len() <= s.len() && s.subrange(i, i + p.len()) == p
}

/// True if `p` occurs anywhere in `s`.
pub open spec fn contains_seq(s: Seq<char>, p: Seq<char>) -> bool {
    exists|i: int| occurs_at(s, p, i)
}

/// True if `s` starts with `p`.
pub open spec fn starts_with(s: Seq<char>, p: Seq<char>) -> bool {
    p.len() <= s.len() && s.subrange(0, p.len() as int) == p
}

/// True if `s` ends with `p`.
pub open spec fn ends_with(s: Seq<char>, p: Seq<char>) -> bool {
    p.len() <= s.len() && s.subrange(s.len() - p.len(), s.len() as int) == p
}

/// Whether the characters of `s` from `i` on match `p`.
fn matches_at(s: &Vec<char>, p: &Vec<char>, i: usize) -> (r: bool)
    requires
        i + p@.len() <= s@.len(),
    ensures
        r == occurs_at(s@, p@, i as int),
{
    let n = s.len();
    let mut j: usize = 0;
    while j < p.len()
        invariant
            0 <= j <= p@.len(),
            i + p@.len() <= s@.len(),
            n == s@.len(),
            forall|k: int| 0 <= k < j ==> s@[i + k] == p@[k],
        decreases p@.len() - j,
    {
        if s[i + j] != p[j] {
            assert(s@.subrange(i as int, i + p@.len())[j as int] != p@[j as int]);
            return false;
        }
        j = j + 1;
    }
    proof {
        assert(s@.subrange(i as int, i + p@.len()) =~= p@);
    }
    true
}

/// Exec test for `starts_with`.
pub fn chars_starts_with(s: &Vec<char>, p: &Vec<char>) -> (r: bool)
    ensures
        r == starts_with(s@, p@),
{
    if p.len() > s.len() {
        return false;
    }
    matches_at(s, p, 0)
}

/// Exec test for `ends_with`.
pub fn chars_ends_with(s: &Vec<char>, p: &Vec<char>) -> (r: bool)
    ensures
        r == ends_with(s@, p@),
{
    if p.len() > s.len() {
        return false;
    }
    matches_at(s, p, s.len() - p.len())
}

/// Exec test for `contains_seq`: finds the first occurrence if any.
pub fn chars_find(s: &Vec<char>, p: &Vec<char>) -> (r: Option<usize>)
    ensures
        match r {
            Some(i) => occurs_at(s@, p@, i as int) && forall|j: int|
                0 <= j < i ==> !occurs_at(s@, p@, j),
            None => !contains_seq(s@, p@),
        },
{
    if p.len() > s.len() {
        return None;
    }
    if p.len() == 0 {
        proof {
            assert(s@.subrange(0, 0) =~= p@);
        }
        return Some(0);
    }
    let mut i: usize = 0;
    while i <= s.len() - p.len()
        invariant
            0 < p@.len() <= s@.len(),
            0 <= i <= s@.len() - p@.len() + 1,
            forall|j: int| 0 <= j < i ==> !occurs_at(s@, p@, j),
        decreases s@.len() - i,
    {
        if matches_at(s, p, i) {
            return Some(i);
        }
        i = i + 1;
    }
    None
}

pub fn chars_contains(s: &Vec<char>, p: &Vec<char>) -> (r: bool)
    ensures
        r == contains_seq(s@, p@),
{
    chars_find(s, p).is_some()
}

/// Copies the characters of `v` between `from` and `to`.
pub fn chars_subrange(v: &Vec<char>, from: usize, to: usize) -> (r: Vec<char>)
    requires
        from <= to <= v@.len(),
    ensures
        r@ == v@.subrange(from as int, to as int),
{
    let mut out: Vec<char> = Vec::new();
    let mut j: usize = from;
    while j < to
        invariant
            from <= j <= to <= v@.len(),
            out@ == v@.subrange(from as int, j as int),
        decreases to - j,
    {
        proof {
            assert(v@.subrange(from as int, j as int + 1) =~= v@.subrange(from as int, j as int).push(
                v@[j as int],
            ));
        }
        out.push(v[j]);
        j = j + 1;
    }
    out
}

/// Counts the leading occurrences of `c`.
pub fn chars_prefix_count(v: &Vec<char>, c: char) -> (r: usize)
    ensures
        r == char_prefix_len(v@, c),
{
    let mut i: usize = 0;
    while i < v.len() && v[i] == c
        invariant
            0 <= i <= v@.len(),
            forall|k: int| 0 <= k < i ==> #[trigger] v@[k] == c,
        decreases v@.len() - i,
    {
        i = i + 1;
    }
    proof {
        lemma_char_prefix_via_index(v@, c, i as int);
    }
    i
}

/// Index of the first occurrence of `p` in `s`, or `-1` when there is none.
pub open spec fn find_idx(s: Seq<char>, p: Seq<char>) -> int
    decreases s.len(),
{
    if starts_with(s, p) {
        0
    } else if s.len() == 0 {
        -1
    } else {
        let r = find_idx(s.drop_first(), p);
        if r < 0 {
            -1
        } else {
            r + 1
        }
    }
}

proof fn lemma_occurs_shift(s: Seq<char>, p: Seq<char>, i: int)
    requires
        1 <= i,
        occurs_at(s, p, i),
    ensures
        occurs_at(s.drop_first(), p, i - 1),
{
    assert(s.drop_first().subrange(i - 1, i - 1 + p.len()) =~= s.subrange(i, i + p.len()));
}

proof fn lemma_occurs_unshift(s: Seq<char>, p: Seq<char>, i: int)
    requires
        0 <= i,
        s.len() >= 1,
        occurs_at(s.drop_first(), p, i),
    ensures
        occurs_at(s, p, i + 1),
{
    assert(s.drop_first().subrange(i, i + p.len()) =~= s.subrange(i + 1, i + 1 + p.len()));
}

/// `find_idx` names the first occurrence.
pub proof fn lemma_find_idx_first(s: Seq<char>, p: Seq<char>, i: int)
    requires
        occurs_at(s, p, i),
        forall|j: int| 0 <= j < i ==> !occurs_at(s, p, j),
    ensures
        find_idx(s, p) == i,
    decreases i,
{
    if i == 0 {
        assert(starts_with(s, p));
    } else {
        assert(!occurs_at(s, p, 0));
        assert(!starts_with(s, p)) by {
            if starts_with(s, p) {
                assert(occurs_at(s, p, 0));
            }
        }
        lemma_occurs_shift(s, p, i);
        assert forall|j: int| 0 <= j < i - 1 implies !occurs_at(s.drop_first(), p, j) by {
            if occurs_at(s.drop_first(), p, j) {
                lemma_occurs_unshift(s, p, j);
            }
        }
        lemma_find_idx_first(s.drop_first(), p, i - 1);
    }
}

/// When `p` does not occur in `s`, `find_idx` is negative.
pub proof fn lemma_find_idx_none(s: Seq<char>, p: Seq<char>)
    requires
        !contains_seq(s, p),
    ensures
        find_idx(s, p) == -1,
    decreases s.len(),
{
    assert(!starts_with(s, p)) by {
        if starts_with(s, p) {
            assert(occurs_at(s, p, 0));
        }
    }
    if s.len() > 0 {
        assert(!contains_seq(s.drop_first(), p)) by {
            if contains_seq(s.drop_first(), p) {
                let j = choose|j: int| occurs_at(s.drop_first(), p, j);
                lemma_occurs_unshift(s, p, j);
            }
        }
        lemma_find_idx_none(s.drop_first(), p);
    }
}

/// Exec equality of two character vectors.
pub fn chars_eq(a: &Vec<char>, b: &Vec<char>) -> (r: bool)
    ensures
        r == (a@ == b@),
{
    if a.len() != b.len() {
        return false;
    }
    let mut i: usize = 0;
    while i < a.len()
        invariant
            a@.len() == b@.len(),
            0 <= i <= a@.len(),
            forall|k: int| 0 <= k < i ==> a@[k] == b@[k],
        decreases a@.len() - i,
    {
        if a[i] != b[i] {
            return false;
        }
        i = i + 1;
    }
    proof {
        assert(a@ =~= b@);
    }
    true
}

/// Exec equality of a string against a character vector, at the `&str` boundary.
pub fn str_eq_chars(s: &str, v: &Vec<char>) -> (r: bool)
    ensures
        r == (s@ == v@),
{
    let sc = to_chars(s);
    chars_eq(&sc, v)
}

/// Exec equality of two strings over their character views.
pub fn str_eq(a: &str, b: &str) -> (r: bool)
    ensures
        r == (a@ == b@),
{
    let ac = to_chars(a);
    str_eq_chars(b, &ac)
}

} // verus!
