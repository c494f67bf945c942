//! Rendering support: the plain text renderer and the decoding of semantic
//! token streams into line-based tokens.

use vstd::prelude::*;

verus! {

/// Renders text without any formatting.
#[derive(Debug)]
pub struct PlainTextRenderer;

impl PlainTextRenderer {
    pub fn new() -> (r: Self) {
        PlainTextRenderer
    }

    /// Plain text draws every line the same way.
    pub fn supports_wysiwyg(&self) -> (r: bool)
        ensures
            !r,
    {
        false
    }
}

impl Default for PlainTextRenderer {
    fn default() -> (r: Self) {
        Self::new()
    }
}

/// One semantic token on a line.
#[derive(Debug, Clone, Copy, PartialEq, Eq, Structural)]
pub struct SemanticToken {
    /// Character offset in the line.
    pub start: u32,
    /// Token length in characters.
    pub length: u32,
    /// Token type from the server's legend.
    pub token_type: u32,
    /// Token modifiers from the server's legend.
    pub modifiers: u32,
}

/// The tokens decoded from a relative-format stream, from group `i` of five
/// numbers on, at the given line and start: each group's first two numbers
/// shift the position, the rest describe the token. Positions wrap on
/// overflow, which well-formed streams never cause.
pub open spec fn decode_tokens_from(data: Seq<u32>, i: int, line: u32, start: u32) -> Seq<
    (u32, SemanticToken),
>
    decreases data.len() - i,
{
    if i < 0 || i + 5 > data.len() {
        Seq::<(u32, SemanticToken)>::empty()
    } else {
        let delta_line = data[i];
        let new_line = line.wrapping_add(delta_line);
        let new_start = if delta_line > 0 {
            data[i + 1]
        } else {
            start.wrapping_add(data[i + 1])
        };
        seq![
            (
                new_line,
                SemanticToken {
                    start: new_start,
                    length: data[i + 2],
                    token_type: data[i + 3],
                    modifiers: data[i + 4],
                },
            ),
        ] + decode_tokens_from(data, i + 5, new_line, new_start)
    }
}

/// Decodes a relative-format semantic token stream into absolute per-line
/// tokens, in stream order.
pub fn decode_semantic_tokens(data: &Vec<u32>) -> (r: Vec<(u32, SemanticToken)>)
    ensures
        r@ == decode_tokens_from(data@, 0, 0, 0),
{
    let mut out: Vec<(u32, SemanticToken)> = Vec::new();
    let mut i: usize = 0;
    let mut line: u32 = 0;
    let mut start: u32 = 0;
    proof {
        assert(out@ =~= Seq::<(u32, SemanticToken)>::empty());
        assert(decode_tokens_from(data@, 0, 0, 0) =~= out@ + decode_tokens_from(data@, 0, 0, 0));
    }
    let total = data.len();
    while total >= 5 && i <= total - 5
        invariant
            0 <= i <= data@.len(),
            total == data@.len(),
            decode_tokens_from(data@, 0, 0, 0) == out@ + decode_tokens_from(
                data@,
                i as int,
                line,
                start,
            ),
        decreases data@.len() - i,
    {
        let ghost pre = out@;
        let ghost oline = line;
        let ghost ostart = start;
        let delta_line = data[i];
        let delta_start = data[i + 1];
        line = line.wrapping_add(delta_line);
        if delta_line > 0 {
            start = delta_start;
        } else {
            start = start.wrapping_add(delta_start);
        }
        let tok = SemanticToken {
            start,
            length: data[i + 2],
            token_type: data[i + 3],
            modifiers: data[i + 4],
        };
        out.push((line, tok));
        proof {
            assert(decode_tokens_from(data@, i as int, oline, ostart) == seq![(line, tok)]
                + decode_tokens_from(data@, i as int + 5, line, start));
            assert(out@ =~= pre.push((line, tok)));
            assert(pre + (seq![(line, tok)] + decode_tokens_from(data@, i as int + 5, line, start))
                =~= out@ + decode_tokens_from(data@, i as int + 5, line, start));
        }
        i = i + 5;
    }
    proof {
        assert(decode_tokens_from(data@, i as int, line, start) =~= Seq::<
            (u32, SemanticToken),
        >::empty());
        assert(out@ + Seq::<(u32, SemanticToken)>::empty() =~= out@);
    }
    out
}

} // verus!
