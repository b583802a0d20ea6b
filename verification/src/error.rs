use vstd::prelude::*;
use crate::token::{Delimiter, LitKind, Spacing, Token, TokenM};
use crate::value::{Value, ValueM};

verus! {

/// Failure of the any-identifier matcher.
#[derive(Debug)]
pub enum IdentError {
    /// A token arrived that is not an identifier.
    Val(Token),
    /// The stream ended while an identifier was expected.
    Termination,
}

/// Failure of the fixed-identifier matcher; carries the expected text.
#[derive(Debug)]
pub enum FixedIdentError {
    Val(String, Token),
    Termination(String),
}

/// Failure of the any-punctuation matcher.
#[derive(Debug)]
pub enum PunctError {
    Val(Token),
    /// The punctuation character matched but its adjacency marker did not:
    /// expected spacing, then actual spacing.
    InvalidSpacing(Spacing, Spacing),
    Termination,
}

/// Failure of the fixed-punctuation matcher; carries the expected character.
#[derive(Debug)]
pub enum FixedPunctError {
    Val(char, Token),
    InvalidSpacing(Spacing, Spacing),
    Termination(char),
}

/// Failure of the typed-literal matcher; carries the expected kind.
#[derive(Debug)]
pub enum TypedLit {
    Val(LitKind, Token),
    Termination(LitKind),
}

/// Failure of the end-of-stream recognizer: a token arrived.
#[derive(Debug)]
pub struct TerminateError(pub Token);

/// Failure of the delimited-group recognizer.
#[derive(Debug)]
pub enum GroupError {
    /// The group was found but its interior did not parse exactly.
    Nested(Box<TerminalError>),
    /// Expected delimiter, then actual delimiter.
    InvalidDelimiter(Delimiter, Delimiter),
    /// The current token is not a group at all.
    InvalidToken(Token),
    /// The stream ended while a group was expected.
    Termination,
}

/// Failure of the sequence combinator.
#[derive(Debug)]
pub enum TupleError {
    /// The first side failed.
    First(Box<ParseError>),
    /// The second side failed, after the first side completed with the
    /// retained output.
    Second(Box<Value>, Box<ParseError>),
    /// A replay count exceeded the buffered tokens: requested, then
    /// available.  This reports an internal invariant violation.
    InvalidLength(usize, usize),
}

/// Failure of the negative-lookahead combinator.
#[derive(Debug)]
pub enum AndNotError {
    /// The accepted side failed on its own.
    ValidFailed(Box<ParseError>),
    /// Both sides matched: the accepted side's result and count, then the
    /// excluded side's.
    FailedCondition(Box<Value>, usize, Box<Value>, usize),
}

/// Failure of the bounded-repetition postcondition.
#[derive(Debug)]
pub enum LengthError {
    /// The wrapped recognizer itself failed.
    Inner(Box<ParseError>),
    /// Required length, then actual length.
    InvalidLength(usize, usize),
}

/// A structured parse failure, one variant per recognizer kind.  An
/// alternation's failure holds exactly one error per branch, in declaration
/// order, as a flat list: its size stays linear in the number of branches.
#[derive(Debug)]
pub enum ParseError {
    Ident(IdentError),
    FixedIdent(FixedIdentError),
    Punct(PunctError),
    FixedPunct(FixedPunctError),
    Lit(TypedLit),
    End(TerminateError),
    Group(GroupError),
    Sequence(TupleError),
    Alternation(Vec<ParseError>),
    AndNot(AndNotError),
    Length(LengthError),
}

/// Failure of an exact parse: either the recognizer itself failed, or it
/// did not record a success exactly at stream end with no backtrack.
#[derive(Debug)]
pub enum TerminalError {
    Inner(Box<ParseError>),
    NonTerminal,
}

pub ghost enum IdentErrorM {
    Val(TokenM),
    Termination,
}

pub ghost enum FixedIdentErrorM {
    Val(Seq<char>, TokenM),
    Termination(Seq<char>),
}

pub ghost enum PunctErrorM {
    Val(TokenM),
    InvalidSpacing(Spacing, Spacing),
    Termination,
}

pub ghost enum FixedPunctErrorM {
    Val(char, TokenM),
    InvalidSpacing(Spacing, Spacing),
    Termination(char),
}

pub ghost enum TypedLitM {
    Val(LitKind, TokenM),
    Termination(LitKind),
}

pub ghost struct TerminateErrorM(pub TokenM);

pub ghost enum GroupErrorM {
    Nested(Box<TerminalErrorM>),
    InvalidDelimiter(Delimiter, Delimiter),
    InvalidToken(TokenM),
    Termination,
}

pub ghost enum TupleErrorM {
    First(Box<ParseErrorM>),
    Second(Box<ValueM>, Box<ParseErrorM>),
    InvalidLength(nat, nat),
}

pub ghost enum AndNotErrorM {
    ValidFailed(Box<ParseErrorM>),
    FailedCondition(Box<ValueM>, nat, Box<ValueM>, nat),
}

pub ghost enum LengthErrorM {
    Inner(Box<ParseErrorM>),
    InvalidLength(nat, nat),
}

pub ghost enum ParseErrorM {
    Ident(IdentErrorM),
    FixedIdent(FixedIdentErrorM),
    Punct(PunctErrorM),
    FixedPunct(FixedPunctErrorM),
    Lit(TypedLitM),
    End(TerminateErrorM),
    Group(GroupErrorM),
    Sequence(TupleErrorM),
    Alternation(Seq<ParseErrorM>),
    AndNot(AndNotErrorM),
    Length(LengthErrorM),
}

pub ghost enum TerminalErrorM {
    Inner(Box<ParseErrorM>),
    NonTerminal,
}

impl IdentError {
    pub open spec fn model(self) -> IdentErrorM {
        match self {
            IdentError::Val(t) => IdentErrorM::Val(t.model()),
            IdentError::Termination => IdentErrorM::Termination,
        }
    }
}

impl FixedIdentError {
    pub open spec fn model(self) -> FixedIdentErrorM {
        match self {
            FixedIdentError::Val(s, t) => FixedIdentErrorM::Val(s@, t.model()),
            FixedIdentError::Termination(s) => FixedIdentErrorM::Termination(s@),
        }
    }
}

impl PunctError {
    pub open spec fn model(self) -> PunctErrorM {
        match self {
            PunctError::Val(t) => PunctErrorM::Val(t.model()),
            PunctError::InvalidSpacing(a, b) => PunctErrorM::InvalidSpacing(a, b),
            PunctError::Termination => PunctErrorM::Termination,
        }
    }
}

impl FixedPunctError {
    pub open spec fn model(self) -> FixedPunctErrorM {
        match self {
            FixedPunctError::Val(c, t) => FixedPunctErrorM::Val(c, t.model()),
            FixedPunctError::InvalidSpacing(a, b) => FixedPunctErrorM::InvalidSpacing(a, b),
            FixedPunctError::Termination(c) => FixedPunctErrorM::Termination(c),
        }
    }
}

impl TypedLit {
    pub open spec fn model(self) -> TypedLitM {
        match self {
            TypedLit::Val(k, t) => TypedLitM::Val(k, t.model()),
            TypedLit::Termination(k) => TypedLitM::Termination(k),
        }
    }
}

impl TerminateError {
    pub open spec fn model(self) -> TerminateErrorM {
        TerminateErrorM(self.0.model())
    }
}

impl ParseError {
    pub open spec fn model(self) -> ParseErrorM
        decreases self, 1nat,
    {
        match self {
            ParseError::Ident(e) => ParseErrorM::Ident(e.model()),
            ParseError::FixedIdent(e) => ParseErrorM::FixedIdent(e.model()),
            ParseError::Punct(e) => ParseErrorM::Punct(e.model()),
            ParseError::FixedPunct(e) => ParseErrorM::FixedPunct(e.model()),
            ParseError::Lit(e) => ParseErrorM::Lit(e.model()),
            ParseError::End(e) => ParseErrorM::End(e.model()),
            ParseError::Group(e) => ParseErrorM::Group(e.model()),
            ParseError::Sequence(e) => ParseErrorM::Sequence(e.model()),
            ParseError::Alternation(es) => ParseErrorM::Alternation(errs_model(es@)),
            ParseError::AndNot(e) => ParseErrorM::AndNot(e.model()),
            ParseError::Length(e) => ParseErrorM::Length(e.model()),
        }
    }
}

impl GroupError {
    pub open spec fn model(self) -> GroupErrorM
        decreases self, 0nat,
    {
        match self {
            GroupError::Nested(te) => GroupErrorM::Nested(Box::new(te.model())),
            GroupError::InvalidDelimiter(a, b) => GroupErrorM::InvalidDelimiter(a, b),
            GroupError::InvalidToken(t) => GroupErrorM::InvalidToken(t.model()),
            GroupError::Termination => GroupErrorM::Termination,
        }
    }
}

impl TupleError {
    pub open spec fn model(self) -> TupleErrorM
        decreases self, 0nat,
    {
        match self {
            TupleError::First(e) => TupleErrorM::First(Box::new(e.model())),
            TupleError::Second(v, e) => TupleErrorM::Second(
                Box::new(v.model()),
                Box::new(e.model()),
            ),
            TupleError::InvalidLength(a, b) => TupleErrorM::InvalidLength(a as nat, b as nat),
        }
    }
}

impl AndNotError {
    pub open spec fn model(self) -> AndNotErrorM
        decreases self, 0nat,
    {
        match self {
            AndNotError::ValidFailed(e) => AndNotErrorM::ValidFailed(Box::new(e.model())),
            AndNotError::FailedCondition(v, vk, n, nk) => AndNotErrorM::FailedCondition(
                Box::new(v.model()),
                vk as nat,
                Box::new(n.model()),
                nk as nat,
            ),
        }
    }
}

impl LengthError {
    pub open spec fn model(self) -> LengthErrorM
        decreases self, 0nat,
    {
        match self {
            LengthError::Inner(e) => LengthErrorM::Inner(Box::new(e.model())),
            LengthError::InvalidLength(a, b) => LengthErrorM::InvalidLength(a as nat, b as nat),
        }
    }
}

impl TerminalError {
    pub open spec fn model(self) -> TerminalErrorM
        decreases self, 0nat,
    {
        match self {
            TerminalError::Inner(e) => TerminalErrorM::Inner(Box::new(e.model())),
            TerminalError::NonTerminal => TerminalErrorM::NonTerminal,
        }
    }
}

/// Model of a sequence of parse errors, element by element.
pub open spec fn errs_model(es: Seq<ParseError>) -> Seq<ParseErrorM>
    decreases es,
{
    if es.len() == 0 {
        Seq::empty()
    } else {
        errs_model(es.drop_last()).push(es.last().model())
    }
}

/// `errs_model` maps the sequence pointwise.
pub proof fn lemma_errs_model(es: Seq<ParseError>)
    ensures
        errs_model(es).len() == es.len(),
        forall|i: int| 0 <= i < es.len() ==> errs_model(es)[i] == es[i].model(),
    decreases es,
{
    if es.len() > 0 {
        lemma_errs_model(es.drop_last());
    }
}

/// Model of an exact-parse result.
pub open spec fn terminal_res_model(r: Result<Value, TerminalError>) -> Result<
    ValueM,
    TerminalErrorM,
> {
    match r {
        Result::Ok(v) => Result::Ok(v.model()),
        Result::Err(e) => Result::Err(e.model()),
    }
}

/// Pushing onto an error vector pushes onto its model.
pub proof fn lemma_errs_model_push(es: Seq<ParseError>, e: ParseError)
    ensures
        errs_model(es.push(e)) == errs_model(es).push(e.model()),
{
    assert(es.push(e).drop_last() =~= es);
    assert(es.push(e).last() == e);
}

} // verus!
