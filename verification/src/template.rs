use vstd::prelude::*;
use vstd::string::StrSliceExecFns;

use crate::token::Token;

verus! {

/// Length of the longest prefix of `s` without a space character.
pub open spec fn space_free_len(s: Seq<char>) -> nat
    decreases s.len(),
{
    if s.len() == 0 || s[0] == ' ' {
        0
    } else {
        1 + space_free_len(s.skip(1))
    }
}

proof fn lemma_space_free_len_le(s: Seq<char>)
    ensures
        space_free_len(s) <= s.len(),
    decreases s.len(),
{
    if s.len() == 0 || s[0] == ' ' {
    } else {
        lemma_space_free_len_le(s.skip(1));
    }
}

/// `space_free_len` is pinned down by its two defining facts: no space
/// before position `k`, and a space (or the end of `s`) at position `k`.
proof fn lemma_space_free_len_exact(s: Seq<char>, k: int)
    requires
        0 <= k <= s.len(),
        forall|j: int| 0 <= j < k ==> s[j] != ' ',
        k < s.len() ==> s[k] == ' ',
    ensures
        space_free_len(s) == k,
    decreases s.len(),
{
    if s.len() == 0 {
    } else if s[0] == ' ' {
        assert(k == 0);
    } else {
        assert(k >= 1);
        assert forall|j: int| 0 <= j < k - 1 implies s.skip(1)[j] != ' ' by {
            assert(s.skip(1)[j] == s[j + 1]);
        }
        if k - 1 < s.skip(1).len() {
            assert(s.skip(1)[k - 1] == s[k]);
        }
        lemma_space_free_len_exact(s.skip(1), k - 1);
    }
}

/// Splitting `s` on the single space character, with no trimming and no
/// collapsing: two adjacent spaces produce an empty part, and the empty
/// text produces one empty part.
pub open spec fn split_on_spaces(s: Seq<char>) -> Seq<Seq<char>>
    decreases s.len(),
    via split_on_spaces_decreases
{
    let k = space_free_len(s) as int;
    if k == s.len() {
        seq![s]
    } else {
        seq![s.subrange(0, k)] + split_on_spaces(s.skip(k + 1))
    }
}

#[via_fn]
proof fn split_on_spaces_decreases(s: Seq<char>) {
    lemma_space_free_len_le(s);
}

/// The one recognized command shape: exactly three space-separated parts,
/// the first `create`, the second `function`. The third part, taken
/// verbatim, names the function in a fixed nine-token skeleton. Every
/// other command yields the empty sequence.
pub open spec fn command_tokens(s: Seq<char>) -> Seq<Seq<char>> {
    let parts = split_on_spaces(s);
    if parts.len() == 3 && parts[0] == "create"@ && parts[1] == "function"@ {
        seq!["fn"@, " "@, parts[2], "("@, ")"@, " "@, "{"@, "\n"@, "}"@]
    } else {
        Seq::empty()
    }
}

/// Compares two strings scalar by scalar.
fn str_eq(a: &str, b: &str) -> (r: bool)
    ensures
        r == (a@ == b@),
{
    let na = a.unicode_len();
    let nb = b.unicode_len();
    if na != nb {
        return false;
    }
    let mut i: usize = 0;
    while i < na
        invariant
            na == a@.len(),
            na == b@.len(),
            i <= na,
            forall|j: int| 0 <= j < i ==> a@[j] == b@[j],
        decreases na - i,
    {
        if a.get_char(i) != b.get_char(i) {
            return false;
        }
        i = i + 1;
    }
    proof {
        assert(a@ =~= b@);
    }
    true
}

/// Unfolds one part covering `start..end`: the suffix from `start` splits
/// into that part followed by the split of what comes after the space at
/// `end`, or is the last part if `end` is the end of the text.
proof fn lemma_split_unfold(s: Seq<char>, start: int, end: int)
    requires
        0 <= start <= end <= s.len(),
        forall|j: int| start <= j < end ==> s[j] != ' ',
        end < s.len() ==> s[end] == ' ',
    ensures
        end < s.len() ==> split_on_spaces(s.skip(start)) == seq![s.subrange(start, end)]
            + split_on_spaces(s.skip(end + 1)),
        end == s.len() ==> split_on_spaces(s.skip(start)) == seq![s.subrange(start, end)],
{
    let a = s.skip(start);
    let k = end - start;
    assert forall|j: int| 0 <= j < k implies a[j] != ' ' by {
        assert(a[j] == s[start + j]);
    }
    if k < a.len() {
        assert(a[k] == s[end]);
    }
    lemma_space_free_len_exact(a, k);
    assert(a.subrange(0, k) =~= s.subrange(start, end));
    if end < s.len() {
        assert(a.skip(k + 1) =~= s.skip(end + 1));
    } else {
        assert(a =~= s.subrange(start, end));
    }
}

/// Splits `text` on the single space character into its parts, keeping
/// empty parts.
fn split_string_on_spaces(s: &str) -> (parts: Vec<String>)
    ensures
        parts.deep_view() == split_on_spaces(s@),
{
    let mut parts: Vec<String> = Vec::new();
    let n = s.unicode_len();
    let mut start: usize = 0;
    let mut pos: usize = 0;
    proof {
        assert(s@.skip(0) =~= s@);
        assert(parts.deep_view() =~= Seq::<Seq<char>>::empty());
        assert(Seq::<Seq<char>>::empty() + split_on_spaces(s@) =~= split_on_spaces(s@));
    }
    while pos < n
        invariant
            s@.len() == n,
            start <= pos <= n,
            forall|j: int| start <= j < pos ==> s@[j] != ' ',
            split_on_spaces(s@) == parts.deep_view() + split_on_spaces(s@.skip(start as int)),
        decreases n - pos,
    {
        let c = s.get_char(pos);
        if c == ' ' {
            let ghost dv0 = parts.deep_view();
            let piece = s.substring_char(start, pos);
            proof {
                lemma_split_unfold(s@, start as int, pos as int);
            }
            parts.push(piece.to_owned());
            proof {
                assert(parts.deep_view() =~= dv0.push(piece@));
                assert(dv0 + (seq![s@.subrange(start as int, pos as int)] + split_on_spaces(
                    s@.skip(pos + 1),
                )) =~= dv0.push(piece@) + split_on_spaces(s@.skip(pos + 1)));
            }
            start = pos + 1;
        }
        pos = pos + 1;
    }
    let ghost dv0 = parts.deep_view();
    let piece = s.substring_char(start, n);
    proof {
        lemma_split_unfold(s@, start as int, n as int);
    }
    parts.push(piece.to_owned());
    proof {
        assert(parts.deep_view() =~= dv0.push(piece@));
        assert(dv0 + seq![s@.subrange(start as int, n as int)] =~= dv0.push(piece@));
    }
    parts
}

/// Recognizes the command `create function <name>` — split on single
/// spaces, exactly three parts, first two fixed — and emits the nine-token
/// skeleton `fn <name>() {\n}`. Any other command, including the empty
/// one, silently yields no tokens.
pub fn text_to_tokens(text: &str) -> (tokens: Vec<Token>)
    ensures
        tokens.deep_view() == command_tokens(text@),
{
    let parts = split_string_on_spaces(text);
    let mut tokens: Vec<Token> = Vec::new();
    proof {
        assert(parts.deep_view().len() == parts@.len());
    }
    if parts.len() == 3 && str_eq(parts[0].as_str(), "create") && str_eq(
        parts[1].as_str(),
        "function",
    ) {
        tokens.push(Token::new("fn"));
        tokens.push(Token::new(" "));
        tokens.push(Token::new(parts[2].as_str()));
        tokens.push(Token::new("("));
        tokens.push(Token::new(")"));
        tokens.push(Token::new(" "));
        tokens.push(Token::new("{"));
        tokens.push(Token::new("\n"));
        tokens.push(Token::new("}"));
        proof {
            assert(tokens.deep_view() =~= command_tokens(text@));
        }
    } else {
        proof {
            assert(tokens.deep_view() =~= command_tokens(text@));
        }
    }
    tokens
}

} // verus!
