//! Heading slugs: the join key between headings and the anchor links that
//! reference them.
//!
//! A slug is the lower-cased heading text with every run of non-alphanumeric
//! characters collapsed into a single `-`, with no leading or trailing `-`.
//! The slug of a slug is the slug itself; that law is proved below.

use vstd::prelude::*;

use crate::text::is_ascii_char;
use crate::text::is_ascii_seq;

verus! {

/// What `str::to_lowercase` returns, as a function of the characters alone.
pub uninterp spec fn lower_of(s: Seq<char>) -> Seq<char>;

/// What `char::is_alphanumeric` returns for a character.
pub uninterp spec fn is_alphanum(c: char) -> bool;

/// The Unicode lowercase mapping restricted to ASCII: `A`..`Z` map to
/// `a`..`z`, every other ASCII character is unchanged.
pub open spec fn ascii_lower_char(c: char) -> char {
    if 'A' <= c && c <= 'Z' {
        ((c as u8) + 32) as char
    } else {
        c
    }
}

/// `ascii_lower_char` applied to each character.
pub open spec fn ascii_lower_seq(s: Seq<char>) -> Seq<char> {
    s.map_values(|c: char| ascii_lower_char(c))
}

/// Alphanumeric within ASCII: letters and decimal digits.
pub open spec fn ascii_alphanum(c: char) -> bool {
    ('a' <= c && c <= 'z') || ('A' <= c && c <= 'Z') || ('0' <= c && c <= '9')
}

/// Relies on str::to_lowercase: the result is a function of the characters
/// alone, and on ASCII input it is the documented ASCII lowercase mapping.
#[verifier::external_body]
fn lowercase(s: &str) -> (r: String)
    ensures
        r@ == lower_of(s@),
        is_ascii_seq(s@) ==> r@ == ascii_lower_seq(s@),
{
    s.to_lowercase()
}

/// Relies on char::is_alphanumeric: a pure predicate of the character; on
/// ASCII characters it holds exactly for letters and digits.
#[verifier::external_body]
fn char_is_alphanumeric(c: char) -> (r: bool)
    ensures
        r == is_alphanum(c),
        is_ascii_char(c) ==> r == ascii_alphanum(c),
{
    c.is_alphanumeric()
}

/// What `str::to_uppercase` returns, as a function of the characters alone.
pub uninterp spec fn upper_of(s: Seq<char>) -> Seq<char>;

/// The Unicode uppercase mapping restricted to ASCII.
pub open spec fn ascii_upper_char(c: char) -> char {
    if 'a' <= c && c <= 'z' {
        ((c as u8) - 32) as char
    } else {
        c
    }
}

pub open spec fn ascii_upper_seq(s: Seq<char>) -> Seq<char> {
    s.map_values(|c: char| ascii_upper_char(c))
}

/// Relies on str::to_uppercase: the result is a function of the characters
/// alone, and on ASCII input it is the documented ASCII uppercase mapping.
#[verifier::external_body]
pub fn uppercase(s: &str) -> (r: String)
    ensures
        r@ == upper_of(s@),
        is_ascii_seq(s@) ==> r@ == ascii_upper_seq(s@),
{
    s.to_uppercase()
}

/// Relies on str::to_lowercase, as `lowercase` does, shared with callers
/// outside this module.
pub fn lowercase_str(s: &str) -> (r: String)
    ensures
        r@ == lower_of(s@),
        is_ascii_seq(s@) ==> r@ == ascii_lower_seq(s@),
{
    lowercase(s)
}

/// A character that a slug keeps. `-` itself always acts as a separator,
/// which agrees with `is_alphanum` since `-` is not alphanumeric.
pub open spec fn is_word_char(c: char) -> bool {
    is_alphanum(c) && c != '-'
}

/// One left-to-right pass of the slug transform. `started` records whether a
/// word character has been emitted; `sep` whether a separator has been seen
/// since the last word character.
pub open spec fn slug_walk(s: Seq<char>, started: bool, sep: bool) -> Seq<char>
    decreases s.len(),
{
    if s.len() == 0 {
        Seq::<char>::empty()
    } else if is_word_char(s.first()) {
        (if started && sep {
            seq!['-', s.first()]
        } else {
            seq![s.first()]
        }) + slug_walk(s.drop_first(), true, false)
    } else {
        slug_walk(s.drop_first(), started, true)
    }
}

/// The slug of an (already lower-cased) character sequence.
pub open spec fn slug_of(s: Seq<char>) -> Seq<char> {
    slug_walk(s, false, false)
}

/// True if `c` occurs in `s`.
pub open spec fn in_seq(c: char, s: Seq<char>) -> bool {
    exists|j: int| 0 <= j < s.len() && s[j] == c
}

/// Shape of any `slug_walk` output: only word characters and `-`, every `-`
/// followed by a word character, chars drawn from the input or `-`, and no
/// leading `-` before the first emitted word character.
proof fn lemma_walk_shape(s: Seq<char>, started: bool, sep: bool)
    ensures
        forall|i: int|
            0 <= i < slug_walk(s, started, sep).len() ==> (is_word_char(
                #[trigger] slug_walk(s, started, sep)[i],
            ) || slug_walk(s, started, sep)[i] == '-'),
        forall|i: int|
            0 <= i < slug_walk(s, started, sep).len() && #[trigger] slug_walk(s, started, sep)[i]
                == '-' ==> i + 1 < slug_walk(s, started, sep).len() && is_word_char(
                slug_walk(s, started, sep)[i + 1],
            ),
        forall|i: int|
            0 <= i < slug_walk(s, started, sep).len() ==> (#[trigger] slug_walk(s, started, sep)[i]
                == '-' || in_seq(slug_walk(s, started, sep)[i], s)),
        !started ==> (slug_walk(s, started, sep).len() > 0 ==> is_word_char(
            slug_walk(s, started, sep).first(),
        )),
    decreases s.len(),
{
    if s.len() == 0 {
    } else {
        let o = slug_walk(s, started, sep);
        let t = s.drop_first();
        if is_word_char(s.first()) {
            lemma_walk_shape(t, true, false);
            let rest = slug_walk(t, true, false);
            let head: Seq<char> = if started && sep {
                seq!['-', s.first()]
            } else {
                seq![s.first()]
            };
            assert(o == head + rest);
            assert forall|i: int| 0 <= i < o.len() implies (is_word_char(#[trigger] o[i]) || o[i]
                == '-') by {
                if i >= head.len() {
                    assert(o[i] == rest[i - head.len()]);
                }
            }
            assert forall|i: int| 0 <= i < o.len() && #[trigger] o[i] == '-' implies i + 1 < o.len()
                && is_word_char(o[i + 1]) by {
                if i >= head.len() {
                    let k = i - head.len();
                    assert(rest[k] == '-');
                    assert(o[i + 1] == rest[k + 1]);
                }
            }
            assert forall|i: int| 0 <= i < o.len() implies (#[trigger] o[i] == '-' || in_seq(
                o[i],
                s,
            )) by {
                if i < head.len() {
                    if o[i] == s.first() {
                        assert(s[0] == s.first());
                    }
                } else {
                    let k = i - head.len();
                    assert(o[i] == rest[k]);
                    assert(rest[k] == '-' || in_seq(rest[k], t));
                    if rest[k] != '-' {
                        let j = choose|j: int| 0 <= j < t.len() && t[j] == rest[k];
                        assert(s[j + 1] == t[j]);
                        assert(in_seq(o[i], s));
                    }
                }
            }
        } else {
            lemma_walk_shape(t, started, true);
            let rest = slug_walk(t, started, true);
            assert(o == rest);
            assert forall|i: int| 0 <= i < o.len() implies (#[trigger] o[i] == '-' || in_seq(
                o[i],
                s,
            )) by {
                assert(rest[i] == '-' || in_seq(rest[i], t));
                if o[i] != '-' {
                    let j = choose|j: int| 0 <= j < t.len() && t[j] == rest[i];
                    assert(s[j + 1] == t[j]);
                    assert(in_seq(o[i], s));
                }
            }
        }
    }
}

/// On a sequence that already has slug shape, the walk is the identity
/// (prefixed by the pending separator, when one is pending).
proof fn lemma_walk_fixpoint(t: Seq<char>, sep: bool)
    requires
        forall|i: int| 0 <= i < t.len() ==> (is_word_char(#[trigger] t[i]) || t[i] == '-'),
        forall|i: int|
            0 <= i < t.len() && #[trigger] t[i] == '-' ==> i + 1 < t.len() && is_word_char(
                t[i + 1],
            ),
        sep ==> (t.len() > 0 && is_word_char(t.first())),
    ensures
        slug_walk(t, true, sep) == (if sep {
            seq!['-'] + t
        } else {
            t
        }),
    decreases t.len(),
{
    if t.len() == 0 {
    } else {
        let r = t.drop_first();
        if is_word_char(t.first()) {
            lemma_walk_fixpoint(r, false);
            if sep {
                assert(slug_walk(t, true, sep) =~= seq!['-'] + t);
            } else {
                assert(slug_walk(t, true, sep) =~= t);
            }
        } else {
            assert(t.first() == '-');
            assert(t[0] == '-');
            assert(r.len() > 0 && is_word_char(r.first())) by {
                assert(is_word_char(t[1]));
                assert(r.first() == t[1]);
            }
            lemma_walk_fixpoint(r, true);
            assert(slug_walk(t, true, sep) == slug_walk(r, true, true));
            assert(slug_walk(t, true, sep) =~= t);
        }
    }
}

/// The slug function is idempotent: slugging a slug's own output returns the
/// same sequence. It is deterministic by construction, being a function of
/// its argument alone.
pub proof fn lemma_slug_idempotent(s: Seq<char>)
    ensures
        slug_of(slug_of(s)) == slug_of(s),
{
    let o = slug_of(s);
    lemma_walk_shape(s, false, false);
    if o.len() == 0 {
    } else {
        assert(is_word_char(o.first()));
        let r = o.drop_first();
        assert forall|i: int| 0 <= i < r.len() implies (is_word_char(#[trigger] r[i]) || r[i]
            == '-') by {
            assert(r[i] == o[i + 1]);
        }
        assert forall|i: int| 0 <= i < r.len() && #[trigger] r[i] == '-' implies i + 1 < r.len()
            && is_word_char(r[i + 1]) by {
            assert(o[i + 1] == '-');
            assert(is_word_char(o[i + 2]));
        }
        lemma_walk_fixpoint(r, false);
        assert(slug_of(o) =~= o);
    }
}

/// A lower-cased ASCII sequence is unchanged by lower-casing its slug again:
/// the slug's characters come from the input or are `-`, all fixed points of
/// the ASCII lowercase map.
pub proof fn lemma_slug_lower_fixed(s: Seq<char>)
    ensures
        ascii_lower_seq(slug_of(ascii_lower_seq(s))) == slug_of(ascii_lower_seq(s)),
{
    let t = ascii_lower_seq(s);
    let o = slug_of(t);
    lemma_walk_shape(t, false, false);
    assert forall|i: int| 0 <= i < o.len() implies ascii_lower_char(#[trigger] o[i]) == o[i] by {
        if o[i] != '-' {
            let j = choose|j: int| 0 <= j < t.len() && t[j] == o[i];
            assert(t[j] == ascii_lower_char(s[j]));
        }
    }
    assert(ascii_lower_seq(o) =~= o);
}

/// For ASCII text the whole pipeline is idempotent: lower-casing and
/// slugging the slug of a lower-cased text gives that slug back. The slug's
/// characters come from the lower-cased input or are `-`, so the second
/// lower-casing changes nothing, and slugging is idempotent on its own
/// output.
pub proof fn lemma_slug_pipeline_idempotent(s: Seq<char>)
    requires
        is_ascii_seq(s),
    ensures
        slug_of(ascii_lower_seq(slug_of(ascii_lower_seq(s)))) == slug_of(ascii_lower_seq(s)),
{
    let t = ascii_lower_seq(s);
    let o = slug_of(t);
    lemma_slug_lower_fixed(s);
    lemma_slug_idempotent(t);
}

/// Builds the slug of `text`: lower-case it, keep alphanumeric runs, and join
/// them with single `-` separators.
pub fn make_heading_slug(text: &str) -> (r: String)
    ensures
        r@ == slug_of(lower_of(text@)),
        is_ascii_seq(text@) ==> r@ == slug_of(ascii_lower_seq(text@)),
{
    let lowered = lowercase(text);
    let v = crate::text::to_chars(lowered.as_str());
    let ghost l = v@;
    let mut out: Vec<char> = Vec::new();
    let mut started: bool = false;
    let mut sep: bool = false;
    let mut i: usize = 0;
    proof {
        assert(l.skip(0) =~= l);
        assert(out@ + slug_walk(l, false, false) =~= slug_walk(l, false, false));
    }
    while i < v.len()
        invariant
            0 <= i <= v@.len(),
            v@ == l,
            slug_of(l) == out@ + slug_walk(l.skip(i as int), started, sep),
        decreases v@.len() - i,
    {
        let c = v[i];
        proof {
            assert(l.skip(i as int).len() > 0);
            assert(l.skip(i as int).first() == l[i as int]);
            assert(l.skip(i as int).drop_first() =~= l.skip(i as int + 1));
        }
        let keep = c != '-' && char_is_alphanumeric(c);
        if keep {
            if started && sep {
                out.push('-');
            }
            out.push(c);
            proof {
                if started && sep {
                    assert(out@ + slug_walk(l.skip(i as int + 1), true, false) =~= (out@.subrange(
                        0,
                        out@.len() - 2,
                    ) + (seq!['-', c] + slug_walk(l.skip(i as int + 1), true, false))));
                } else {
                    assert(out@ + slug_walk(l.skip(i as int + 1), true, false) =~= (out@.subrange(
                        0,
                        out@.len() - 1,
                    ) + (seq![c] + slug_walk(l.skip(i as int + 1), true, false))));
                }
            }
            started = true;
            sep = false;
        } else {
            sep = true;
        }
        i = i + 1;
    }
    proof {
        assert(l.skip(l.len() as int) =~= Seq::<char>::empty());
        assert(slug_of(l) =~= out@);
    }
    crate::text::from_chars(&out)
}

} // verus!
