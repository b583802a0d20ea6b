use vstd::prelude::*;
use crate::token::{Delimiter, LitKind, Spacing, Token, TokenM};
use crate::value::{Value, ValueM};
use crate::error::{
    FixedIdentError, FixedIdentErrorM, FixedPunctError, FixedPunctErrorM, IdentError,
    IdentErrorM, ParseError, ParseErrorM, PunctError, PunctErrorM, TerminateError,
    TerminateErrorM, TypedLit, TypedLitM,
};

verus! {

/// Success of one recognizer step: the output together with the number of
/// most-recently-fed tokens it did not consume (its backtrack count).
pub type SmResult<T, E> = Result<(T, usize), E>;

/// Ghost counterpart of [`SmResult`] over model values.
pub ghost enum ResM {
    Success(ValueM, nat),
    Failure(ParseErrorM),
}

/// Model of an `SmResult`.
pub open spec fn res_model(r: SmResult<Value, ParseError>) -> ResM {
    match r {
        Result::Ok((v, k)) => ResM::Success(v.model(), k as nat),
        Result::Err(e) => ResM::Failure(e.model()),
    }
}

/// Matches any identifier token.
pub struct IdentMachine;

/// Matches one fixed identifier.
pub struct FixedIdentMachine {
    pub ident: String,
}

/// Matches any punctuation token, optionally requiring an adjacency marker.
pub struct PunctMachine {
    pub spacing: Option<Spacing>,
}

/// Matches one fixed punctuation character, optionally requiring an
/// adjacency marker.
pub struct FixedPunctMachine {
    pub punct: char,
    pub spacing: Option<Spacing>,
}

/// Matches any literal token of one kind.
pub struct LitMachine {
    pub kind: LitKind,
}

/// Matches the end of the stream: it rejects every token and succeeds only
/// when terminated.
pub struct Terminate;

/// A grammar: the type-level descriptor of a recognizer.  Primitive
/// matchers sit at the leaves; structural combinators compose sub-grammars.
pub enum Grammar {
    Ident(IdentMachine),
    FixedIdent(FixedIdentMachine),
    Punct(PunctMachine),
    FixedPunct(FixedPunctMachine),
    Lit(LitMachine),
    End(Terminate),
    /// A delimited group: optionally a required delimiter, and the grammar
    /// of the interior, which must parse exactly.
    Group(Option<Delimiter>, Box<Grammar>),
    /// First one part, then the other, with replay of backtracked tokens.
    Sequence(Box<Grammar>, Box<Grammar>),
    /// Prioritized choice: every branch is driven with the same token at
    /// the same step, and the lowest-indexed successful branch wins.
    Alternation(Vec<Grammar>),
    /// Zero or more occurrences; never fails.
    Repetition(Box<Grammar>),
    /// Alternating items and separators, tolerant of a trailing separator.
    Interleave(Box<Grammar>, Box<Grammar>),
    /// Zero or one occurrence; never fails.
    Optional(Box<Grammar>),
    /// Accepts the first grammar only where the second does not also match.
    AndNot(Box<Grammar>, Box<Grammar>),
    /// Passes through, wrapping the output with a tag; timing and
    /// backtrack counts are unchanged.
    Tagged(u64, Box<Grammar>),
    /// Converts a too-short repetition or interleave result into a failure.
    MinLength(usize, Box<Grammar>),
}

/// Ghost counterpart of [`Grammar`].
pub ghost enum GrammarM {
    Ident,
    FixedIdent(Seq<char>),
    Punct(Option<Spacing>),
    FixedPunct(char, Option<Spacing>),
    Lit(LitKind),
    End,
    Group(Option<Delimiter>, Box<GrammarM>),
    Sequence(Box<GrammarM>, Box<GrammarM>),
    Alternation(Seq<GrammarM>),
    Repetition(Box<GrammarM>),
    Interleave(Box<GrammarM>, Box<GrammarM>),
    Optional(Box<GrammarM>),
    AndNot(Box<GrammarM>, Box<GrammarM>),
    Tagged(u64, Box<GrammarM>),
    MinLength(nat, Box<GrammarM>),
}

impl Grammar {
    pub open spec fn model(self) -> GrammarM
        decreases self, 0nat,
    {
        match self {
            Grammar::Ident(_) => GrammarM::Ident,
            Grammar::FixedIdent(m) => GrammarM::FixedIdent(m.ident@),
            Grammar::Punct(m) => GrammarM::Punct(m.spacing),
            Grammar::FixedPunct(m) => GrammarM::FixedPunct(m.punct, m.spacing),
            Grammar::Lit(m) => GrammarM::Lit(m.kind),
            Grammar::End(_) => GrammarM::End,
            Grammar::Group(d, g) => GrammarM::Group(d, Box::new(g.model())),
            Grammar::Sequence(a, b) => GrammarM::Sequence(Box::new(a.model()), Box::new(b.model())),
            Grammar::Alternation(gs) => GrammarM::Alternation(grams_model(gs@)),
            Grammar::Repetition(g) => GrammarM::Repetition(Box::new(g.model())),
            Grammar::Interleave(a, b) => GrammarM::Interleave(
                Box::new(a.model()),
                Box::new(b.model()),
            ),
            Grammar::Optional(g) => GrammarM::Optional(Box::new(g.model())),
            Grammar::AndNot(a, b) => GrammarM::AndNot(Box::new(a.model()), Box::new(b.model())),
            Grammar::Tagged(t, g) => GrammarM::Tagged(t, Box::new(g.model())),
            Grammar::MinLength(n, g) => GrammarM::MinLength(n as nat, Box::new(g.model())),
        }
    }
}

/// Model of a sequence of grammars, element by element.
pub open spec fn grams_model(gs: Seq<Grammar>) -> Seq<GrammarM>
    decreases gs,
{
    if gs.len() == 0 {
        Seq::empty()
    } else {
        grams_model(gs.drop_last()).push(gs.last().model())
    }
}

/// `grams_model` maps the sequence pointwise.
pub proof fn lemma_grams_model(gs: Seq<Grammar>)
    ensures
        grams_model(gs).len() == gs.len(),
        forall|i: int| 0 <= i < gs.len() ==> grams_model(gs)[i] == gs[i].model(),
    decreases gs,
{
    if gs.len() > 0 {
        lemma_grams_model(gs.drop_last());
    }
}

/// What the any-identifier matcher does with one token.
pub open spec fn ident_step(t: TokenM) -> ResM {
    match t {
        TokenM::Ident(s) => ResM::Success(ValueM::Ident(s), 0),
        _ => ResM::Failure(ParseErrorM::Ident(IdentErrorM::Val(t))),
    }
}

/// What the fixed-identifier matcher does with one token.
pub open spec fn fixed_ident_step(w: Seq<char>, t: TokenM) -> ResM {
    match t {
        TokenM::Ident(s) => if s == w {
            ResM::Success(ValueM::Ident(s), 0)
        } else {
            ResM::Failure(ParseErrorM::FixedIdent(FixedIdentErrorM::Val(w, t)))
        },
        _ => ResM::Failure(ParseErrorM::FixedIdent(FixedIdentErrorM::Val(w, t))),
    }
}

/// What the any-punctuation matcher does with one token.
pub open spec fn punct_step(req: Option<Spacing>, t: TokenM) -> ResM {
    match t {
        TokenM::Punct(c, sp) => match req {
            Option::Some(r) => if r == sp {
                ResM::Success(ValueM::Punct(c, sp), 0)
            } else {
                ResM::Failure(ParseErrorM::Punct(PunctErrorM::InvalidSpacing(r, sp)))
            },
            Option::None => ResM::Success(ValueM::Punct(c, sp), 0),
        },
        _ => ResM::Failure(ParseErrorM::Punct(PunctErrorM::Val(t))),
    }
}

/// What the fixed-punctuation matcher does with one token.
pub open spec fn fixed_punct_step(p: char, req: Option<Spacing>, t: TokenM) -> ResM {
    match t {
        TokenM::Punct(c, sp) => if c == p {
            match req {
                Option::Some(r) => if r == sp {
                    ResM::Success(ValueM::Punct(c, sp), 0)
                } else {
                    ResM::Failure(ParseErrorM::FixedPunct(FixedPunctErrorM::InvalidSpacing(r, sp)))
                },
                Option::None => ResM::Success(ValueM::Punct(c, sp), 0),
            }
        } else {
            ResM::Failure(ParseErrorM::FixedPunct(FixedPunctErrorM::Val(p, t)))
        },
        _ => ResM::Failure(ParseErrorM::FixedPunct(FixedPunctErrorM::Val(p, t))),
    }
}

/// What the typed-literal matcher does with one token.
pub open spec fn lit_step(k: LitKind, t: TokenM) -> ResM {
    match t {
        TokenM::Literal(k2, s) => if k2 == k {
            ResM::Success(ValueM::Literal(k2, s), 0)
        } else {
            ResM::Failure(ParseErrorM::Lit(TypedLitM::Val(k, t)))
        },
        _ => ResM::Failure(ParseErrorM::Lit(TypedLitM::Val(k, t))),
    }
}

impl IdentMachine {
    /// Breaks on every token: success exactly on an identifier.
    pub fn drive(&self, t: &Token) -> (r: SmResult<Value, ParseError>)
        ensures
            res_model(r) == ident_step(t.model()),
    {
        match t {
            Token::Ident(s) => Result::Ok((Value::Ident(s.clone()), 0)),
            _ => Result::Err(ParseError::Ident(IdentError::Val(t.duplicate()))),
        }
    }

    /// The stream ended while an identifier was expected.
    pub fn terminate(&self) -> (r: SmResult<Value, ParseError>)
        ensures
            res_model(r) == ResM::Failure(ParseErrorM::Ident(IdentErrorM::Termination)),
    {
        Result::Err(ParseError::Ident(IdentError::Termination))
    }
}

impl FixedIdentMachine {
    pub fn drive(&self, t: &Token) -> (r: SmResult<Value, ParseError>)
        ensures
            res_model(r) == fixed_ident_step(self.ident@, t.model()),
    {
        match t {
            Token::Ident(s) => {
                if self.ident.eq(s) {
                    Result::Ok((Value::Ident(s.clone()), 0))
                } else {
                    Result::Err(
                        ParseError::FixedIdent(
                            FixedIdentError::Val(self.ident.clone(), t.duplicate()),
                        ),
                    )
                }
            },
            _ => Result::Err(
                ParseError::FixedIdent(FixedIdentError::Val(self.ident.clone(), t.duplicate())),
            ),
        }
    }

    pub fn terminate(&self) -> (r: SmResult<Value, ParseError>)
        ensures
            res_model(r) == ResM::Failure(
                ParseErrorM::FixedIdent(FixedIdentErrorM::Termination(self.ident@)),
            ),
    {
        Result::Err(ParseError::FixedIdent(FixedIdentError::Termination(self.ident.clone())))
    }
}

impl PunctMachine {
    pub fn drive(&self, t: &Token) -> (r: SmResult<Value, ParseError>)
        ensures
            res_model(r) == punct_step(self.spacing, t.model()),
    {
        match t {
            Token::Punct(c, sp) => {
                match self.spacing {
                    Option::Some(r) => {
                        if r == *sp {
                            Result::Ok((Value::Punct(*c, *sp), 0))
                        } else {
                            Result::Err(ParseError::Punct(PunctError::InvalidSpacing(r, *sp)))
                        }
                    },
                    Option::None => Result::Ok((Value::Punct(*c, *sp), 0)),
                }
            },
            _ => Result::Err(ParseError::Punct(PunctError::Val(t.duplicate()))),
        }
    }

    pub fn terminate(&self) -> (r: SmResult<Value, ParseError>)
        ensures
            res_model(r) == ResM::Failure(ParseErrorM::Punct(PunctErrorM::Termination)),
    {
        Result::Err(ParseError::Punct(PunctError::Termination))
    }
}

impl FixedPunctMachine {
    pub fn drive(&self, t: &Token) -> (r: SmResult<Value, ParseError>)
        ensures
            res_model(r) == fixed_punct_step(self.punct, self.spacing, t.model()),
    {
        match t {
            Token::Punct(c, sp) => {
                if *c == self.punct {
                    match self.spacing {
                        Option::Some(r) => {
                            if r == *sp {
                                Result::Ok((Value::Punct(*c, *sp), 0))
                            } else {
                                Result::Err(
                                    ParseError::FixedPunct(
                                        FixedPunctError::InvalidSpacing(r, *sp),
                                    ),
                                )
                            }
                        },
                        Option::None => Result::Ok((Value::Punct(*c, *sp), 0)),
                    }
                } else {
                    Result::Err(
                        ParseError::FixedPunct(FixedPunctError::Val(self.punct, t.duplicate())),
                    )
                }
            },
            _ => Result::Err(
                ParseError::FixedPunct(FixedPunctError::Val(self.punct, t.duplicate())),
            ),
        }
    }

    pub fn terminate(&self) -> (r: SmResult<Value, ParseError>)
        ensures
            res_model(r) == ResM::Failure(
                ParseErrorM::FixedPunct(FixedPunctErrorM::Termination(self.punct)),
            ),
    {
        Result::Err(ParseError::FixedPunct(FixedPunctError::Termination(self.punct)))
    }
}

impl LitMachine {
    pub fn drive(&self, t: &Token) -> (r: SmResult<Value, ParseError>)
        ensures
            res_model(r) == lit_step(self.kind, t.model()),
    {
        match t {
            Token::Literal(k, s) => {
                if *k == self.kind {
                    Result::Ok((Value::Literal(*k, s.clone()), 0))
                } else {
                    Result::Err(ParseError::Lit(TypedLit::Val(self.kind, t.duplicate())))
                }
            },
            _ => Result::Err(ParseError::Lit(TypedLit::Val(self.kind, t.duplicate()))),
        }
    }

    pub fn terminate(&self) -> (r: SmResult<Value, ParseError>)
        ensures
            res_model(r) == ResM::Failure(ParseErrorM::Lit(TypedLitM::Termination(self.kind))),
    {
        Result::Err(ParseError::Lit(TypedLit::Termination(self.kind)))
    }
}

impl Terminate {
    /// Rejects every token: only the end of the stream satisfies it.
    pub fn drive(&self, t: &Token) -> (r: SmResult<Value, ParseError>)
        ensures
            res_model(r) == ResM::Failure(
                ParseErrorM::End(TerminateErrorM(t.model())),
            ),
    {
        Result::Err(ParseError::End(TerminateError(t.duplicate())))
    }

    /// The stream ended, as required.
    pub fn terminate(&self) -> (r: SmResult<Value, ParseError>)
        ensures
            res_model(r) == ResM::Success(ValueM::Fin, 0),
    {
        Result::Ok((Value::Fin, 0))
    }
}

} // verus!
