use vstd::prelude::*;
use crate::token::{Delimiter, Spacing, Token};
use crate::value::{Value, ValueM};
use crate::error::TerminalError;
use crate::grammar::{
    FixedIdentMachine, FixedPunctMachine, Grammar, GrammarM, IdentMachine,
};

verus! {

/// Copy a keyword into an owned string with a known view.
fn kw(s: &str) -> (r: String)
    ensures
        r@ == s@,
{
    let r = s.to_string();
    proof {
        vstd::string::to_string_from_display_ensures_for_str(s, r);
    }
    r
}

/// The `::` separator: a joint colon immediately followed by a colon.
pub fn double_colon() -> (g: Grammar)
    ensures
        g.model() == double_colon_m(),
{
    proof {
        reveal_with_fuel(Grammar::model, 3);
    }
    Grammar::Sequence(
        Box::new(
            Grammar::FixedPunct(
                FixedPunctMachine { punct: ':', spacing: Option::Some(Spacing::Joint) },
            ),
        ),
        Box::new(Grammar::FixedPunct(FixedPunctMachine { punct: ':', spacing: Option::None })),
    )
}

/// Model of the `::` separator grammar.
pub open spec fn double_colon_m() -> GrammarM {
    GrammarM::Sequence(
        Box::new(GrammarM::FixedPunct(':', Option::Some(Spacing::Joint))),
        Box::new(GrammarM::FixedPunct(':', Option::None)),
    )
}

/// An identifier position that also admits the underscore; the token
/// model folds the underscore into identifiers, so any identifier token
/// is accepted.
#[derive(Debug)]
pub struct IdentifierOrUnder;

impl IdentifierOrUnder {
    pub fn grammar() -> (g: Grammar)
        ensures
            g.model() == GrammarM::Ident,
    {
        Grammar::Ident(IdentMachine)
    }
}

/// A lifetime: a joint apostrophe immediately followed by its name.
#[derive(Debug)]
pub struct Lifetime {
    pub ident: String,
}

impl Lifetime {
    pub fn grammar() -> (g: Grammar)
        ensures
            g.model() == Self::grammar_m(),
    {
        proof {
            reveal_with_fuel(Grammar::model, 3);
        }
        Grammar::Sequence(
            Box::new(
                Grammar::FixedPunct(
                    FixedPunctMachine { punct: '\'', spacing: Option::Some(Spacing::Joint) },
                ),
            ),
            Box::new(Grammar::Ident(IdentMachine)),
        )
    }

    pub open spec fn grammar_m() -> GrammarM {
        GrammarM::Sequence(
            Box::new(GrammarM::FixedPunct('\'', Option::Some(Spacing::Joint))),
            Box::new(GrammarM::Ident),
        )
    }

    /// Read a lifetime back out of the recognizer's output.
    pub fn from_value(v: Value) -> (r: Option<Lifetime>)
        ensures
            r matches Option::Some(lt) ==> v.model() matches ValueM::Pair(_, n) && *n
                == ValueM::Ident(lt.ident@),
            r is None ==> !(v.model() matches ValueM::Pair(_, n) && *n matches ValueM::Ident(_)),
    {
        proof {
            reveal_with_fuel(Value::model, 3);
        }
        match v {
            Value::Pair(_, name) => match *name {
                Value::Ident(s) => Option::Some(Lifetime { ident: s }),
                _ => Option::None,
            },
            _ => Option::None,
        }
    }
}

/// A lifetime used as a label: the same shape as a lifetime.
#[derive(Debug)]
pub struct LifetimeOrLable {
    pub ident: String,
}

impl LifetimeOrLable {
    pub fn grammar() -> (g: Grammar)
        ensures
            g.model() == Lifetime::grammar_m(),
    {
        Lifetime::grammar()
    }
}

/// Lifetime bounds: lifetimes interleaved with `+` separators.
#[derive(Debug)]
pub struct LifetimeBounds {
    pub lifetimes: Vec<Lifetime>,
}

impl LifetimeBounds {
    pub fn grammar() -> (g: Grammar)
        ensures
            g.model() == GrammarM::Interleave(
                Box::new(Lifetime::grammar_m()),
                Box::new(GrammarM::FixedPunct('+', Option::None)),
            ),
    {
        proof {
            reveal_with_fuel(Grammar::model, 3);
        }
        Grammar::Interleave(
            Box::new(Lifetime::grammar()),
            Box::new(Grammar::FixedPunct(FixedPunctMachine { punct: '+', spacing: Option::None })),
        )
    }
}

/// One segment of a simple path: an identifier, or the `$crate`
/// metavariable.
#[derive(Debug)]
pub enum Segment {
    Id(String),
    DCrate,
}

impl Segment {
    pub fn grammar() -> (g: Grammar)
        ensures
            g.model() == Self::grammar_m(),
    {
        let mut branches: Vec<Grammar> = Vec::new();
        branches.push(Grammar::Ident(IdentMachine));
        branches.push(
            Grammar::Sequence(
                Box::new(
                    Grammar::FixedPunct(FixedPunctMachine { punct: '$', spacing: Option::None }),
                ),
                Box::new(Grammar::FixedIdent(FixedIdentMachine { ident: kw("crate") })),
            ),
        );
        let g = Grammar::Alternation(branches);
        proof {
            reveal_with_fuel(Grammar::model, 4);
            crate::grammar::lemma_grams_model(branches@);
            assert(crate::grammar::grams_model(branches@) =~= Self::grammar_m()->Alternation_0);
        }
        g
    }

    pub open spec fn grammar_m() -> GrammarM {
        GrammarM::Alternation(
            seq![
                GrammarM::Ident,
                GrammarM::Sequence(
                    Box::new(GrammarM::FixedPunct('$', Option::None)),
                    Box::new(GrammarM::FixedIdent("crate"@)),
                ),
            ],
        )
    }

    /// Read a segment back out of the recognizer's output.
    pub fn from_value(v: Value) -> (r: Option<Segment>)
    {
        match v {
            Value::Branch(i, inner) => {
                if i == 0 {
                    match *inner {
                        Value::Ident(s) => Option::Some(Segment::Id(s)),
                        _ => Option::None,
                    }
                } else {
                    Option::Some(Segment::DCrate)
                }
            },
            _ => Option::None,
        }
    }
}

/// A simple path that may be empty: an optional leading `::`, then
/// segments interleaved with `::` separators.
#[derive(Debug)]
pub struct SimplePathOrNone {
    pub leading_double_colon: bool,
    pub segments: Vec<Segment>,
}

impl SimplePathOrNone {
    pub fn grammar() -> (g: Grammar)
        ensures
            g.model() == Self::grammar_m(),
    {
        proof {
            reveal_with_fuel(Grammar::model, 4);
        }
        Grammar::Sequence(
            Box::new(Grammar::Optional(Box::new(double_colon()))),
            Box::new(
                Grammar::Interleave(Box::new(Segment::grammar()), Box::new(double_colon())),
            ),
        )
    }

    pub open spec fn grammar_m() -> GrammarM {
        GrammarM::Sequence(
            Box::new(GrammarM::Optional(Box::new(double_colon_m()))),
            Box::new(
                GrammarM::Interleave(
                    Box::new(Segment::grammar_m()),
                    Box::new(double_colon_m()),
                ),
            ),
        )
    }

    /// Read a path back out of the recognizer's output.
    pub fn from_value(v: Value) -> (r: Option<SimplePathOrNone>)
    {
        match v {
            Value::Pair(lead, rest) => {
                let leading: bool = match *lead {
                    Value::Maybe(o) => o.is_some(),
                    _ => false,
                };
                match *rest {
                    Value::Interlaced(il) => {
                        let crate::value::Interlace(items, _) = il;
                        let mut segments: Vec<Segment> = Vec::new();
                        let n: usize = items.len();
                        let mut rest_items = items;
                        let mut i: usize = 0;
                        while i < n
                            invariant
                                i <= n,
                                rest_items@.len() == n - i,
                            decreases n - i,
                        {
                            let item = rest_items.remove(0);
                            match Segment::from_value(item) {
                                Option::Some(sg) => {
                                    segments.push(sg);
                                },
                                Option::None => {
                                    return Option::None;
                                },
                            }
                            i = i + 1;
                        }
                        Option::Some(
                            SimplePathOrNone { leading_double_colon: leading, segments },
                        )
                    },
                    _ => Option::None,
                }
            },
            _ => Option::None,
        }
    }
}

/// A simple path: as [`SimplePathOrNone`], but with at least one segment.
#[derive(Debug)]
pub struct SimplePath {
    pub leading_double_colon: bool,
    pub segments: Vec<Segment>,
}

/// Failure of the simple-path production.
#[derive(Debug)]
pub enum SimplePathError {
    /// The underlying parse failed.
    Inner(TerminalError),
    /// The parse matched an empty path.
    NoLength,
    /// The recognizer's output had an unexpected shape.
    Malformed,
}

impl SimplePath {
    /// Parse a whole token sequence as a simple path: the recognizer must
    /// consume it exactly, and the path must have at least one segment.
    pub fn parse(toks: &Vec<Token>) -> (r: Result<SimplePath, SimplePathError>)
        ensures
            r matches Result::Ok(sp) ==> sp.segments@.len() >= 1,
    {
        let g = SimplePathOrNone::grammar();
        match crate::parse_terminal(&g, toks) {
            Result::Err(e) => Result::Err(SimplePathError::Inner(e)),
            Result::Ok(v) => match SimplePathOrNone::from_value(v) {
                Option::None => Result::Err(SimplePathError::Malformed),
                Option::Some(p) => {
                    if p.segments.len() == 0 {
                        Result::Err(SimplePathError::NoLength)
                    } else {
                        Result::Ok(
                            SimplePath {
                                leading_double_colon: p.leading_double_colon,
                                segments: p.segments,
                            },
                        )
                    }
                },
            },
        }
    }
}

/// A visibility marker: `pub`, `pub(crate)`, `pub(self)` or `pub(super)`.
#[derive(Debug)]
pub enum Visability {
    Pub,
    PubCrate,
    PubSelf,
    PubSuper,
}

impl Visability {
    /// The qualified forms come first so that a plain `pub` only wins once
    /// no parenthesized qualifier follows.
    pub fn grammar() -> (g: Grammar)
        ensures
            g.model() == Self::grammar_m(),
    {
        let mut branches: Vec<Grammar> = Vec::new();
        branches.push(Self::pub_group("crate"));
        branches.push(Self::pub_group("self"));
        branches.push(Self::pub_group("super"));
        branches.push(Grammar::FixedIdent(FixedIdentMachine { ident: kw("pub") }));
        let g = Grammar::Alternation(branches);
        proof {
            reveal_with_fuel(Grammar::model, 2);
            crate::grammar::lemma_grams_model(branches@);
            assert(crate::grammar::grams_model(branches@) =~= Self::grammar_m()->Alternation_0);
        }
        g
    }

    pub open spec fn grammar_m() -> GrammarM {
        GrammarM::Alternation(
            seq![
                Self::pub_group_m("crate"@),
                Self::pub_group_m("self"@),
                Self::pub_group_m("super"@),
                GrammarM::FixedIdent("pub"@),
            ],
        )
    }

    pub open spec fn pub_group_m(inner: Seq<char>) -> GrammarM {
        GrammarM::Sequence(
            Box::new(GrammarM::FixedIdent("pub"@)),
            Box::new(
                GrammarM::Group(
                    Option::Some(Delimiter::Parenthesis),
                    Box::new(GrammarM::FixedIdent(inner)),
                ),
            ),
        )
    }

    /// `pub` followed by one parenthesized keyword.
    fn pub_group(inner: &str) -> (g: Grammar)
        ensures
            g.model() == Self::pub_group_m(inner@),
    {
        proof {
            reveal_with_fuel(Grammar::model, 4);
        }
        Grammar::Sequence(
            Box::new(Grammar::FixedIdent(FixedIdentMachine { ident: kw("pub") })),
            Box::new(
                Grammar::Group(
                    Option::Some(Delimiter::Parenthesis),
                    Box::new(Grammar::FixedIdent(FixedIdentMachine { ident: kw(inner) })),
                ),
            ),
        )
    }

    /// Read a visibility back out of the recognizer's output.
    pub fn from_value(v: Value) -> (r: Option<Visability>)
    {
        match v {
            Value::Branch(i, _) => {
                if i == 0 {
                    Option::Some(Visability::PubCrate)
                } else if i == 1 {
                    Option::Some(Visability::PubSelf)
                } else if i == 2 {
                    Option::Some(Visability::PubSuper)
                } else {
                    Option::Some(Visability::Pub)
                }
            },
            _ => Option::None,
        }
    }
}

/// A unit struct declaration: the `struct` keyword, a name, a semicolon.
#[derive(Debug)]
pub struct UnitStruct {
    pub name: String,
}

impl UnitStruct {
    pub fn grammar() -> (g: Grammar)
        ensures
            g.model() == GrammarM::Sequence(
                Box::new(GrammarM::FixedIdent("struct"@)),
                Box::new(
                    GrammarM::Sequence(
                        Box::new(GrammarM::Ident),
                        Box::new(GrammarM::FixedPunct(';', Option::None)),
                    ),
                ),
            ),
    {
        proof {
            reveal_with_fuel(Grammar::model, 4);
        }
        Grammar::Sequence(
            Box::new(Grammar::FixedIdent(FixedIdentMachine { ident: kw("struct") })),
            Box::new(
                Grammar::Sequence(
                    Box::new(Grammar::Ident(IdentMachine)),
                    Box::new(
                        Grammar::FixedPunct(
                            FixedPunctMachine { punct: ';', spacing: Option::None },
                        ),
                    ),
                ),
            ),
        )
    }

    /// Read the declared name back out of the recognizer's output.
    pub fn from_value(v: Value) -> (r: Option<UnitStruct>)
        ensures
            r matches Option::Some(us) ==> v.model() matches ValueM::Pair(_, rest) && *rest
                matches ValueM::Pair(n, _) && *n == ValueM::Ident(us.name@),
    {
        proof {
            reveal_with_fuel(Value::model, 4);
        }
        match v {
            Value::Pair(_, rest) => match *rest {
                Value::Pair(name, _) => match *name {
                    Value::Ident(s) => Option::Some(UnitStruct { name: s }),
                    _ => Option::None,
                },
                _ => Option::None,
            },
            _ => Option::None,
        }
    }
}

} // verus!
