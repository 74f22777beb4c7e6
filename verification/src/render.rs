use vstd::prelude::*;
use vstd::string::StringExecFns;

use crate::token::Token;

verus! {

/// The text of a sequence of texts: every piece concatenated in order,
/// with nothing inserted in between.
pub open spec fn concat_texts(pieces: Seq<Seq<char>>) -> Seq<char>
    decreases pieces.len(),
{
    if pieces.len() == 0 {
        Seq::empty()
    } else {
        pieces[0] + concat_texts(pieces.skip(1))
    }
}

/// Concatenation grows one piece at a time: appending a piece at the end
/// appends its text at the end.
pub proof fn lemma_concat_texts_push(pieces: Seq<Seq<char>>, piece: Seq<char>)
    ensures
        concat_texts(pieces.push(piece)) == concat_texts(pieces) + piece,
    decreases pieces.len(),
{
    if pieces.len() == 0 {
        assert(pieces.push(piece)[0] == piece);
        assert(pieces.push(piece).skip(1) =~= Seq::<Seq<char>>::empty());
        assert(concat_texts(Seq::<Seq<char>>::empty()) == Seq::<char>::empty());
        assert(concat_texts(pieces.push(piece)) =~= piece);
        assert(concat_texts(pieces) + piece =~= piece);
    } else {
        lemma_concat_texts_push(pieces.skip(1), piece);
        assert(pieces.push(piece).skip(1) =~= pieces.skip(1).push(piece));
        assert(concat_texts(pieces.push(piece)) =~= concat_texts(pieces) + piece);
    }
}

/// Renders a token sequence: the tokens' texts joined in order with no
/// separator inserted. The empty sequence renders to the empty string.
pub fn tokens_to_string(tokens: &[Token]) -> (res: String)
    ensures
        res@ == concat_texts(tokens.deep_view()),
{
    let ghost all: Seq<Seq<char>> = tokens.deep_view();
    let mut res = String::new();
    let mut i: usize = 0;
    while i < tokens.len()
        invariant
            tokens.deep_view() == all,
            all.len() == tokens@.len(),
            i <= tokens@.len(),
            res@ == concat_texts(all.take(i as int)),
        decreases tokens@.len() - i,
    {
        let piece = tokens[i].to_string();
        res.append(piece.as_str());
        proof {
            lemma_concat_texts_push(all.take(i as int), all[i as int]);
            assert(all.take(i as int).push(all[i as int]) =~= all.take(i + 1));
        }
        i = i + 1;
    }
    proof {
        assert(all.take(all.len() as int) =~= all);
    }
    res
}

} // verus!
