use vstd::prelude::*;
use crate::token::{Delimiter, LitKind, Spacing};

verus! {

/// The two interleaved result lists of the alternating item/separator
/// combinator: items first, separators second.
#[derive(Debug)]
pub struct Interlace(pub Vec<Value>, pub Vec<Value>);

/// The output of a recognizer.  Primitive matchers yield the matched
/// token's payload; structural combinators build pairs, lists and tagged
/// variants out of their parts.
#[derive(Debug)]
pub enum Value {
    /// A matched identifier.
    Ident(String),
    /// A matched punctuation character.
    Punct(char, Spacing),
    /// A matched literal.
    Literal(LitKind, String),
    /// A delimited group's delimiter and the result of its interior parse.
    Group(Delimiter, Box<Value>),
    /// A sequence's two results.
    Pair(Box<Value>, Box<Value>),
    /// A repetition's collected results.
    List(Vec<Value>),
    /// An optional recognizer's result.
    Maybe(Option<Box<Value>>),
    /// An alternation's result: the index of the winning branch and its value.
    Branch(usize, Box<Value>),
    /// The item and separator lists of an interleave.
    Interlaced(Interlace),
    /// A mapped recognizer's result, marked with the mapping's tag.
    Tagged(u64, Box<Value>),
    /// The result of the end-of-stream recognizer.
    Fin,
}

/// Mathematical value of a recognizer output.
pub ghost enum ValueM {
    Ident(Seq<char>),
    Punct(char, Spacing),
    Literal(LitKind, Seq<char>),
    Group(Delimiter, Box<ValueM>),
    Pair(Box<ValueM>, Box<ValueM>),
    List(Seq<ValueM>),
    Maybe(Option<Box<ValueM>>),
    Branch(nat, Box<ValueM>),
    Interlaced(Seq<ValueM>, Seq<ValueM>),
    Tagged(u64, Box<ValueM>),
    Fin,
}

impl Value {
    pub open spec fn model(self) -> ValueM
        decreases self, 0nat,
    {
        match self {
            Value::Ident(s) => ValueM::Ident(s@),
            Value::Punct(c, sp) => ValueM::Punct(c, sp),
            Value::Literal(k, s) => ValueM::Literal(k, s@),
            Value::Group(d, v) => ValueM::Group(d, Box::new(v.model())),
            Value::Pair(a, b) => ValueM::Pair(Box::new(a.model()), Box::new(b.model())),
            Value::List(vs) => ValueM::List(vals_model(vs@)),
            Value::Maybe(o) => ValueM::Maybe(
                match o {
                    Option::Some(v) => Option::Some(Box::new(v.model())),
                    Option::None => Option::None,
                },
            ),
            Value::Branch(i, v) => ValueM::Branch(i as nat, Box::new(v.model())),
            Value::Interlaced(il) => ValueM::Interlaced(vals_model(il.0@), vals_model(il.1@)),
            Value::Tagged(t, v) => ValueM::Tagged(t, Box::new(v.model())),
            Value::Fin => ValueM::Fin,
        }
    }
}

/// Model of a sequence of values, element by element.
pub open spec fn vals_model(vs: Seq<Value>) -> Seq<ValueM>
    decreases vs,
{
    if vs.len() == 0 {
        Seq::empty()
    } else {
        vals_model(vs.drop_last()).push(vs.last().model())
    }
}

/// `vals_model` maps the sequence pointwise.
pub proof fn lemma_vals_model(vs: Seq<Value>)
    ensures
        vals_model(vs).len() == vs.len(),
        forall|i: int| 0 <= i < vs.len() ==> vals_model(vs)[i] == vs[i].model(),
    decreases vs,
{
    if vs.len() > 0 {
        lemma_vals_model(vs.drop_last());
    }
}

/// Pushing onto a value vector pushes onto its model.
pub proof fn lemma_vals_model_push(vs: Seq<Value>, v: Value)
    ensures
        vals_model(vs.push(v)) == vals_model(vs).push(v.model()),
{
    assert(vs.push(v).drop_last() =~= vs);
    assert(vs.push(v).last() == v);
}

/// Pushing onto a token vector pushes onto its model.
pub proof fn lemma_toks_model_push(ts: Seq<crate::token::Token>, t: crate::token::Token)
    ensures
        crate::token::toks_model(ts.push(t)) == crate::token::toks_model(ts).push(t.model()),
{
    assert(ts.push(t).drop_last() =~= ts);
    assert(ts.push(t).last() == t);
}

} // verus!
