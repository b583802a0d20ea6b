use vstd::prelude::*;

verus! {

/// Whether a punctuation character is immediately followed by another
/// punctuation character (`Joint`) or stands on its own (`Alone`).  This
/// adjacency marker is what lets a grammar tell a compound operator such as
/// `<=` apart from two separate single-character operators.
#[derive(Clone, Copy, Debug, PartialEq, Eq, Structural)]
pub enum Spacing {
    Joint,
    Alone,
}

/// The delimiter of a nested token group.
#[derive(Clone, Copy, Debug, PartialEq, Eq, Structural)]
pub enum Delimiter {
    Parenthesis,
    Brace,
    Bracket,
    /// An invisible delimiter, as produced by macro expansion.
    Invisible,
}

/// The classification of a literal token.  The raw text of the literal is
/// kept verbatim; the engine only ever inspects the kind tag.
#[derive(Clone, Copy, Debug, PartialEq, Eq, Structural)]
pub enum LitKind {
    Integer,
    Float,
    Str,
    ByteStr,
}

/// One lexical token: an identifier, a punctuation character with its
/// adjacency marker, a literal, or a delimited group wrapping a nested
/// token sequence.  The full token sequence is materialized by the caller
/// before a parse begins.
#[derive(Debug)]
pub enum Token {
    Ident(String),
    Punct(char, Spacing),
    Literal(LitKind, String),
    Group(Delimiter, Vec<Token>),
}

/// The mathematical value of a [`Token`]: text becomes a sequence of
/// characters and nested token vectors become sequences.
pub ghost enum TokenM {
    Ident(Seq<char>),
    Punct(char, Spacing),
    Literal(LitKind, Seq<char>),
    Group(Delimiter, Seq<TokenM>),
}

impl Token {
    pub open spec fn model(self) -> TokenM
        decreases self,
    {
        match self {
            Token::Ident(s) => TokenM::Ident(s@),
            Token::Punct(c, sp) => TokenM::Punct(c, sp),
            Token::Literal(k, s) => TokenM::Literal(k, s@),
            Token::Group(d, inner) => TokenM::Group(d, toks_model(inner@)),
        }
    }

    /// Structural copy of a token, with the copy's model known to equal the
    /// original's.
    pub fn duplicate(&self) -> (r: Token)
        ensures
            r.model() == self.model(),
        decreases *self, 0nat,
    {
        match self {
            Token::Ident(s) => Token::Ident(s.clone()),
            Token::Punct(c, sp) => Token::Punct(*c, *sp),
            Token::Literal(k, s) => Token::Literal(*k, s.clone()),
            Token::Group(d, inner) => Token::Group(*d, dup_tokens(inner)),
        }
    }
}

/// Structural copy of a token sequence, pointwise model-preserving.
pub fn dup_tokens(v: &Vec<Token>) -> (r: Vec<Token>)
    ensures
        toks_model(r@) == toks_model(v@),
        r@.len() == v@.len(),
    decreases v@, 1nat,
{
    let mut copy: Vec<Token> = Vec::new();
    let n: usize = v.len();
    let mut i: usize = 0;
    while i < n
        invariant
            n == v@.len(),
            i <= n,
            copy@.len() == i,
            forall|j: int| 0 <= j < i ==> copy@[j].model() == v@[j].model(),
        decreases n - i,
    {
        let t = v[i].duplicate();
        copy.push(t);
        i = i + 1;
    }
    proof {
        lemma_toks_model(v@);
        lemma_toks_model(copy@);
        assert(toks_model(copy@) =~= toks_model(v@));
    }
    copy
}

/// Model of a token sequence, element by element.
pub open spec fn toks_model(ts: Seq<Token>) -> Seq<TokenM>
    decreases ts,
{
    if ts.len() == 0 {
        Seq::empty()
    } else {
        toks_model(ts.drop_last()).push(ts.last().model())
    }
}

/// `toks_model` maps the sequence pointwise.
pub proof fn lemma_toks_model(ts: Seq<Token>)
    ensures
        toks_model(ts).len() == ts.len(),
        forall|i: int| 0 <= i < ts.len() ==> toks_model(ts)[i] == ts[i].model(),
    decreases ts,
{
    if ts.len() > 0 {
        lemma_toks_model(ts.drop_last());
    }
}

} // verus!
