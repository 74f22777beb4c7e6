use vstd::prelude::*;

verus! {

/// One immutable piece of text. A token has no identity beyond its
/// content: two tokens are equal exactly when their texts are equal.
#[derive(Debug)]
pub struct Token {
    name: String,
}

impl View for Token {
    type V = Seq<char>;

    closed spec fn view(&self) -> Seq<char> {
        self.name@
    }
}

impl DeepView for Token {
    type V = Seq<char>;

    open spec fn deep_view(&self) -> Seq<char> {
        self@
    }
}

impl Token {
    /// Wraps a copy of the given text in a token.
    pub fn new(name: &str) -> (t: Token)
        ensures
            t@ == name@,
    {
        Token { name: name.to_owned() }
    }

    /// Hands out a copy of the token's text.
    pub fn to_string(&self) -> (r: String)
        ensures
            r@ == self@,
    {
        self.name.clone()
    }
}

impl PartialEq for Token {
    fn eq(&self, other: &Token) -> (r: bool) {
        self.name == other.name
    }
}

impl vstd::std_specs::cmp::PartialEqSpecImpl for Token {
    open spec fn obeys_eq_spec() -> bool {
        true
    }

    open spec fn eq_spec(&self, other: &Token) -> bool {
        self@ == other@
    }
}

} // verus!
