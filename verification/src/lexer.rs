use vstd::prelude::*;
use vstd::string::StrSliceExecFns;

use crate::render::concat_texts;
use crate::token::Token;

verus! {

/// A scalar value with the Unicode `White_Space` property, by code point.
pub open spec fn is_unicode_space(c: char) -> bool {
    let u = c as u32;
    ||| u == 0x0020
    ||| (0x0009 <= u && u <= 0x000D)
    ||| u == 0x0085
    ||| u == 0x00A0
    ||| u == 0x1680
    ||| (0x2000 <= u && u <= 0x200A)
    ||| u == 0x2028
    ||| u == 0x2029
    ||| u == 0x202F
    ||| u == 0x205F
    ||| u == 0x3000
}

/// A lexeme boundary: any whitespace scalar or one of the four structural
/// delimiters `{`, `}`, `(`, `)`.
pub open spec fn is_separator(c: char) -> bool {
    is_unicode_space(c) || c == '{' || c == '}' || c == '(' || c == ')'
}

/// Length of the longest separator-free prefix of `s`.
pub open spec fn run_len(s: Seq<char>) -> nat
    decreases s.len(),
{
    if s.len() == 0 || is_separator(s[0]) {
        0
    } else {
        1 + run_len(s.skip(1))
    }
}

proof fn lemma_run_len_le(s: Seq<char>)
    ensures
        run_len(s) <= s.len(),
    decreases s.len(),
{
    if s.len() == 0 || is_separator(s[0]) {
    } else {
        lemma_run_len_le(s.skip(1));
    }
}

/// `run_len` is pinned down by its two defining facts: no separator before
/// position `k`, and a separator (or the end of `s`) at position `k`.
proof fn lemma_run_len_exact(s: Seq<char>, k: int)
    requires
        0 <= k <= s.len(),
        forall|j: int| 0 <= j < k ==> !is_separator(s[j]),
        k < s.len() ==> is_separator(s[k]),
    ensures
        run_len(s) == k,
    decreases s.len(),
{
    if s.len() == 0 {
    } else if is_separator(s[0]) {
        assert(k == 0);
    } else {
        assert(k >= 1);
        assert forall|j: int| 0 <= j < k - 1 implies !is_separator(s.skip(1)[j]) by {
            assert(s.skip(1)[j] == s[j + 1]);
        }
        if k - 1 < s.skip(1).len() {
            assert(s.skip(1)[k - 1] == s[k]);
        }
        lemma_run_len_exact(s.skip(1), k - 1);
    }
}

/// The lexer's segmentation of `s`: a separator scalar always stands alone
/// as a one-scalar lexeme, and every maximal separator-free run forms one
/// lexeme. The empty text has no lexemes.
pub open spec fn segment_chars(s: Seq<char>) -> Seq<Seq<char>>
    decreases s.len(),
    via segment_chars_decreases
{
    if s.len() == 0 {
        Seq::empty()
    } else if is_separator(s[0]) {
        seq![s.subrange(0, 1)] + segment_chars(s.skip(1))
    } else {
        seq![s.subrange(0, run_len(s) as int)] + segment_chars(s.skip(run_len(s) as int))
    }
}

#[via_fn]
proof fn segment_chars_decreases(s: Seq<char>) {
    if s.len() > 0 && !is_separator(s[0]) {
        lemma_run_len_le(s);
    }
}

/// Lossless round trip: concatenating the lexemes of any text, in order,
/// reproduces the text exactly. No scalar is dropped, duplicated, or
/// reordered.
pub proof fn lemma_segment_lossless(s: Seq<char>)
    ensures
        concat_texts(segment_chars(s)) == s,
    decreases s.len(),
{
    if s.len() == 0 {
        assert(concat_texts(segment_chars(s)) =~= s);
    } else if is_separator(s[0]) {
        lemma_segment_lossless(s.skip(1));
        assert(segment_chars(s).skip(1) =~= segment_chars(s.skip(1)));
        assert(s.subrange(0, 1) + s.skip(1) =~= s);
    } else {
        lemma_run_len_le(s);
        let k = run_len(s) as int;
        assert(k >= 1);
        lemma_segment_lossless(s.skip(k));
        assert(segment_chars(s).skip(1) =~= segment_chars(s.skip(k)));
        assert(s.subrange(0, k) + s.skip(k) =~= s);
    }
}

/// Unfolds one separator lexeme at position `start`: the suffix from
/// `start` segments into that single scalar followed by the segmentation
/// of the rest.
proof fn lemma_segment_unfold_sep(s: Seq<char>, start: int)
    requires
        0 <= start < s.len(),
        is_separator(s[start]),
    ensures
        segment_chars(s.skip(start)) == seq![s.subrange(start, start + 1)] + segment_chars(
            s.skip(start + 1),
        ),
{
    let a = s.skip(start);
    assert(a.subrange(0, 1) =~= s.subrange(start, start + 1));
    assert(a.skip(1) =~= s.skip(start + 1));
}

/// Unfolds one separator-free lexeme covering `start..end`: the suffix
/// from `start` segments into that run followed by the segmentation of
/// the rest.
proof fn lemma_segment_unfold_run(s: Seq<char>, start: int, end: int)
    requires
        0 <= start < end <= s.len(),
        forall|j: int| start <= j < end ==> !is_separator(s[j]),
        end < s.len() ==> is_separator(s[end]),
    ensures
        segment_chars(s.skip(start)) == seq![s.subrange(start, end)] + segment_chars(s.skip(end)),
{
    let a = s.skip(start);
    let k = end - start;
    assert forall|j: int| 0 <= j < k implies !is_separator(a[j]) by {
        assert(a[j] == s[start + j]);
    }
    if k < a.len() {
        assert(a[k] == s[end]);
    }
    lemma_run_len_exact(a, k);
    assert(a[0] == s[start]);
    assert(a.subrange(0, k) =~= s.subrange(start, end));
    assert(a.skip(k) =~= s.skip(end));
}

/// Splits `s` into its lexemes. Every separator scalar becomes its own
/// one-scalar piece, every maximal separator-free run becomes one piece,
/// and the pieces concatenate back to `s` exactly. The scan works over
/// Unicode scalar values, so no character is ever split.
pub fn partition_string(s: &str) -> (parts: Vec<String>)
    ensures
        parts.deep_view() == segment_chars(s@),
{
    let mut parts: Vec<String> = Vec::new();
    let n = s.unicode_len();
    if n == 0 {
        proof {
            assert(parts.deep_view() =~= segment_chars(s@));
        }
        return parts;
    }
    let mut start: usize = 0;
    let mut after_separator: bool = false;
    let mut pos: usize = 0;
    proof {
        assert(s@.skip(0) =~= s@);
        assert(parts.deep_view() =~= Seq::<Seq<char>>::empty());
        assert(Seq::<Seq<char>>::empty() + segment_chars(s@) =~= segment_chars(s@));
    }
    while pos < n
        invariant
            s@.len() == n,
            0 < n,
            start <= pos <= n,
            pos > 0 ==> start < pos,
            after_separator == (pos > 0 && is_separator(s@[pos - 1])),
            after_separator ==> start + 1 == pos,
            !after_separator ==> (forall|j: int| start <= j < pos ==> !is_separator(s@[j])),
            segment_chars(s@) == parts.deep_view() + segment_chars(s@.skip(start as int)),
        decreases n - pos,
    {
        let c = s.get_char(pos);
        if separator(c) {
            if pos > 0 {
                let ghost dv0 = parts.deep_view();
                let piece = s.substring_char(start, pos);
                proof {
                    if after_separator {
                        lemma_segment_unfold_sep(s@, start as int);
                    } else {
                        lemma_segment_unfold_run(s@, start as int, pos as int);
                    }
                }
                parts.push(piece.to_owned());
                proof {
                    assert(parts.deep_view() =~= dv0.push(piece@));
                    assert(dv0 + (seq![s@.subrange(start as int, pos as int)] + segment_chars(
                        s@.skip(pos as int),
                    )) =~= dv0.push(piece@) + segment_chars(s@.skip(pos as int)));
                }
                start = pos;
            }
            after_separator = true;
        } else if after_separator {
            let ghost dv0 = parts.deep_view();
            let piece = s.substring_char(start, pos);
            proof {
                lemma_segment_unfold_sep(s@, start as int);
            }
            parts.push(piece.to_owned());
            proof {
                assert(parts.deep_view() =~= dv0.push(piece@));
                assert(dv0 + (seq![s@.subrange(start as int, pos as int)] + segment_chars(
                    s@.skip(pos as int),
                )) =~= dv0.push(piece@) + segment_chars(s@.skip(pos as int)));
            }
            start = pos;
            after_separator = false;
        }
        pos = pos + 1;
    }
    let ghost dv0 = parts.deep_view();
    let piece = s.substring_char(start, n);
    proof {
        if after_separator {
            lemma_segment_unfold_sep(s@, start as int);
            assert(s@.skip(start as int + 1) =~= Seq::<char>::empty());
        } else {
            lemma_segment_unfold_run(s@, start as int, n as int);
            assert(s@.skip(n as int) =~= Seq::<char>::empty());
        }
        assert(segment_chars(Seq::<char>::empty()) == Seq::<Seq<char>>::empty());
    }
    parts.push(piece.to_owned());
    proof {
        assert(parts.deep_view() =~= dv0.push(piece@));
        assert(dv0 + (seq![s@.subrange(start as int, n as int)] + Seq::<Seq<char>>::empty())
            =~= dv0.push(piece@));
    }
    parts
}

/// Lexes `code` and wraps each lexeme in a token. The resulting token
/// sequence is the lossless segmentation of `code`.
pub fn code_to_tokens(code: &str) -> (tokens: Vec<Token>)
    ensures
        tokens.deep_view() == segment_chars(code@),
{
    let parts = partition_string(code);
    let ghost all: Seq<Seq<char>> = parts.deep_view();
    let mut tokens: Vec<Token> = Vec::new();
    let mut i: usize = 0;
    proof {
        assert(all.len() == parts@.len());
        assert(tokens.deep_view() =~= all.take(0));
    }
    while i < parts.len()
        invariant
            parts.deep_view() == all,
            all.len() == parts@.len(),
            i <= parts@.len(),
            tokens.deep_view() == all.take(i as int),
        decreases parts@.len() - i,
    {
        let part: &String = &parts[i];
        proof {
            assert(part@ == all[i as int]);
        }
        let ghost dv0 = tokens.deep_view();
        tokens.push(Token::new(part.as_str()));
        proof {
            assert(tokens.deep_view() =~= dv0.push(part@));
            assert(dv0.push(part@) =~= all.take(i + 1));
        }
        i = i + 1;
    }
    proof {
        assert(all.take(all.len() as int) =~= all);
    }
    tokens
}

/// Decides `is_separator` for one scalar value.
fn separator(c: char) -> (r: bool)
    ensures
        r == is_separator(c),
{
    let u = c as u32;
    u == 0x0020 || (0x0009 <= u && u <= 0x000D) || u == 0x0085 || u == 0x00A0 || u == 0x1680 || (
    0x2000 <= u && u <= 0x200A) || u == 0x2028 || u == 0x2029 || u == 0x202F || u == 0x205F || u
        == 0x3000 || c == '{' || c == '}' || c == '(' || c == ')'
}

} // verus!
