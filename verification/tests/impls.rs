use syn_state_machine::error::{
    FixedPunctError, GroupError, LengthError, ParseError, PunctError, TerminalError, TupleError,
    TypedLit,
};
use syn_state_machine::grammar::{
    FixedIdentMachine, FixedPunctMachine, Grammar, IdentMachine, LitMachine, PunctMachine,
    Terminate,
};
use syn_state_machine::token::{Delimiter, LitKind, Spacing, Token};
use syn_state_machine::value::Value;
use syn_state_machine::{parse, parse_terminal};

fn ident(s: &str) -> Token {
    Token::Ident(s.to_string())
}

fn punct_a(c: char) -> Token {
    Token::Punct(c, Spacing::Alone)
}

fn punct_j(c: char) -> Token {
    Token::Punct(c, Spacing::Joint)
}

fn group(d: Delimiter, toks: Vec<Token>) -> Token {
    Token::Group(d, toks)
}

fn g_ident() -> Grammar {
    Grammar::Ident(IdentMachine)
}

fn g_fident(s: &str) -> Grammar {
    Grammar::FixedIdent(FixedIdentMachine { ident: s.to_string() })
}

fn g_punct() -> Grammar {
    Grammar::Punct(PunctMachine { spacing: None })
}

fn g_fpunct(c: char) -> Grammar {
    Grammar::FixedPunct(FixedPunctMachine { punct: c, spacing: None })
}

fn g_fpunct_sp(c: char, sp: Spacing) -> Grammar {
    Grammar::FixedPunct(FixedPunctMachine { punct: c, spacing: Some(sp) })
}

fn seq2(a: Grammar, b: Grammar) -> Grammar {
    Grammar::Sequence(Box::new(a), Box::new(b))
}

fn seq3(a: Grammar, b: Grammar, c: Grammar) -> Grammar {
    seq2(a, seq2(b, c))
}

fn rep(p: Grammar) -> Grammar {
    Grammar::Repetition(Box::new(p))
}

fn opt(p: Grammar) -> Grammar {
    Grammar::Optional(Box::new(p))
}

fn inter(a: Grammar, b: Grammar) -> Grammar {
    Grammar::Interleave(Box::new(a), Box::new(b))
}

fn ident_text(v: &Value) -> &str {
    match v {
        Value::Ident(s) => s.as_str(),
        _ => panic!("expected an identifier value"),
    }
}

#[test]
fn ident_it_matches_only() {
    let v = parse_terminal(&g_ident(), &vec![ident("id")]).unwrap();
    assert_eq!(ident_text(&v), "id");
}

#[test]
fn ident_it_matches_fixed() {
    parse_terminal(&g_fident("id"), &vec![ident("id")]).unwrap();
}

#[test]
fn ident_it_fails_on_incorrect() {
    parse_terminal(&g_fident("id"), &vec![ident("ident")]).unwrap_err();
}

#[test]
fn punct_it_matches_only() {
    let v = parse_terminal(&g_punct(), &vec![punct_a('<')]).unwrap();
    assert!(matches!(v, Value::Punct('<', _)));
}

#[test]
fn punct_it_matches_fixed() {
    parse_terminal(&g_fpunct('<'), &vec![punct_a('<')]).unwrap();
}

#[test]
fn it_matches_dollar() {
    parse_terminal(&g_fpunct('$'), &vec![punct_a('$')]).unwrap();
    parse_terminal(
        &seq2(g_fpunct('$'), g_fpunct('$')),
        &vec![punct_j('$'), punct_a('$')],
    )
    .unwrap();
}

#[test]
fn punct_it_fails_on_incorrect() {
    parse_terminal(&g_fident("id"), &vec![ident("ident")]).unwrap_err();
}

#[test]
fn it_matches_joint() {
    let toks = vec![punct_j('\''), ident("hello")];
    parse_terminal(&seq2(g_fpunct_sp('\'', Spacing::Joint), g_ident()), &toks).unwrap();
    let toks = vec![punct_j('\''), ident("hello")];
    parse_terminal(&seq2(g_fpunct_sp('\'', Spacing::Alone), g_ident()), &toks).unwrap_err();
}

#[test]
fn it_matches_alone() {
    let toks = vec![punct_a('<'), ident("hello")];
    parse_terminal(&seq2(g_fpunct_sp('<', Spacing::Alone), g_ident()), &toks).unwrap();
    let toks = vec![punct_a('<'), ident("hello")];
    parse_terminal(&seq2(g_fpunct_sp('<', Spacing::Joint), g_ident()), &toks).unwrap_err();
}

#[test]
fn it_matches_both() {
    parse_terminal(
        &seq2(g_fpunct_sp('<', Spacing::Joint), g_fpunct_sp('=', Spacing::Alone)),
        &vec![punct_j('<'), punct_a('=')],
    )
    .unwrap();
    parse_terminal(
        &seq3(
            g_fpunct_sp('<', Spacing::Joint),
            g_fpunct_sp('=', Spacing::Alone),
            g_fpunct_sp('=', Spacing::Alone),
        ),
        &vec![punct_j('<'), punct_a('='), punct_a('=')],
    )
    .unwrap();
}

#[test]
fn dollar_crate() {
    parse_terminal(
        &seq2(g_fpunct('$'), g_fident("crate")),
        &vec![punct_a('$'), ident("crate")],
    )
    .unwrap();
}

#[test]
fn it_matches_general_delim() {
    let toks = vec![
        ident("hello"),
        group(Delimiter::Parenthesis, vec![ident("world")]),
        ident("hi"),
    ];
    let g = seq3(g_ident(), Grammar::Group(None, Box::new(g_ident())), g_ident());
    let (v, l) = parse(&g, &toks).unwrap();
    assert_eq!(l, 0);
    match v {
        Value::Pair(_, rest) => match *rest {
            Value::Pair(grp, _) => match *grp {
                Value::Group(_, content) => assert_eq!(ident_text(&content), "world"),
                _ => panic!("expected a group value"),
            },
            _ => panic!("expected a pair"),
        },
        _ => panic!("expected a pair"),
    }
}

#[test]
fn it_matches_parenthesis() {
    let toks = vec![
        ident("hello"),
        group(Delimiter::Parenthesis, vec![ident("world")]),
        ident("hi"),
    ];
    let g = seq3(
        g_ident(),
        Grammar::Group(Some(Delimiter::Parenthesis), Box::new(g_ident())),
        g_ident(),
    );
    let (v, l) = parse(&g, &toks).unwrap();
    assert_eq!(l, 0);
    match v {
        Value::Pair(_, rest) => match *rest {
            Value::Pair(grp, _) => match *grp {
                Value::Group(Delimiter::Parenthesis, content) => {
                    assert_eq!(ident_text(&content), "world")
                },
                _ => panic!("expected a parenthesized group"),
            },
            _ => panic!("expected a pair"),
        },
        _ => panic!("expected a pair"),
    }

    let toks = vec![
        ident("hello"),
        group(Delimiter::Brace, vec![ident("world")]),
        ident("hi"),
    ];
    let g = seq3(
        g_ident(),
        Grammar::Group(Some(Delimiter::Parenthesis), Box::new(g_ident())),
        g_ident(),
    );
    let e = match parse(&g, &toks) {
        Ok(_) => panic!("a braced group must not match a parenthesis grammar"),
        Err(e) => e,
    };
    // The mismatch is reported as a delimiter error inside the sequence.
    match e {
        ParseError::Sequence(TupleError::Second(_, inner)) => match *inner {
            ParseError::Sequence(TupleError::First(inner2)) => match *inner2 {
                ParseError::Group(GroupError::InvalidDelimiter(
                    Delimiter::Parenthesis,
                    Delimiter::Brace,
                )) => {},
                other => panic!("unexpected inner error: {:?}", other),
            },
            other => panic!("unexpected second-side error: {:?}", other),
        },
        other => panic!("unexpected error: {:?}", other),
    }
}

#[test]
fn it_matches_tokens_after_interlace() {
    let toks = vec![ident("hello"), punct_a('>'), punct_a(';')];
    let g = seq2(
        inter(g_ident(), seq2(g_fpunct_sp(':', Spacing::Joint), g_fpunct(':'))),
        seq2(g_fpunct('>'), g_fpunct(';')),
    );
    parse(&g, &toks).unwrap();
}

fn interlaced_parts(v: Value) -> (Vec<Value>, Vec<Value>) {
    match v {
        Value::Interlaced(il) => (il.0, il.1),
        _ => panic!("expected an interleave value"),
    }
}

#[test]
fn it_matches_comma_seperation() {
    let toks = vec![
        ident("hello"),
        punct_a(','),
        ident("world"),
        punct_a(','),
        ident("hi"),
        punct_a(','),
        ident("there"),
        punct_a(','),
    ];
    let (v, l) = parse(&inter(g_ident(), g_fpunct(',')), &toks).unwrap();
    let (items, seps) = interlaced_parts(v);
    assert_eq!(items.len(), 4);
    assert_eq!(seps.len(), 3);
    assert_eq!(l, 1);
}

#[test]
fn it_matches_comma_seperation_with_backstep() {
    let toks = vec![
        ident("hello"),
        ident("hi"),
        punct_a(','),
        ident("world"),
        punct_a(','),
        ident("hi"),
        punct_a(','),
        ident("there"),
    ];
    let item = seq2(g_ident(), opt(g_ident()));
    let (v, l) = parse(&inter(item, g_fpunct(',')), &toks).unwrap();
    let (items, seps) = interlaced_parts(v);
    assert_eq!(items.len(), 4);
    assert_eq!(seps.len(), 3);
    assert_eq!(l, 0);
}

#[test]
fn it_matches_with_arbitrarilly_sized_interlacing() {
    let toks = vec![
        ident("hello"),
        ident("hi"),
        ident("world"),
        punct_j(','),
        punct_j(','),
        punct_a(','),
        ident("hi"),
        punct_a(','),
        ident("there"),
    ];
    let item = seq2(g_ident(), opt(g_ident()));
    let (v, l) = parse(&inter(item, rep(g_fpunct(','))), &toks).unwrap();
    let (items, seps) = interlaced_parts(v);
    assert_eq!(items.len(), 4);
    assert_eq!(seps.len(), 3);
    assert_eq!(l, 0);
}

#[test]
fn it_matches_with_arbitrarilly() {
    let toks = vec![
        ident("hello"),
        ident("hi"),
        ident("world"),
        punct_j(','),
        punct_j(','),
        punct_a(','),
        ident("hi"),
        punct_a(','),
        ident("there"),
    ];
    let item = seq2(g_ident(), rep(g_ident()));
    let (v, l) = parse(&inter(item, rep(g_fpunct(','))), &toks).unwrap();
    let (items, seps) = interlaced_parts(v);
    assert_eq!(l, 0);
    assert_eq!(items.len(), 3);
    assert_eq!(seps.len(), 2);
}

#[test]
fn it_maps() {
    let g = Grammar::Tagged(7, Box::new(g_ident()));
    let (v, _) = parse(&g, &vec![ident("hello")]).unwrap();
    match v {
        Value::Tagged(7, inner) => assert_eq!(ident_text(&inner), "hello"),
        _ => panic!("expected a tagged value"),
    }
}

#[test]
fn option_it_matches_only() {
    let (v, l) = parse(&opt(g_ident()), &vec![punct_a('<')]).unwrap();
    assert!(matches!(v, Value::Maybe(None)));
    assert_eq!(l, 1);
}

#[test]
fn it_returns_the_correct_length() {
    let toks = vec![ident("hi"), punct_a('<')];
    let (v, l) = parse(&opt(seq2(g_ident(), g_ident())), &toks).unwrap();
    assert!(matches!(v, Value::Maybe(None)));
    assert_eq!(l, 2);
}

fn list_parts(v: Value) -> Vec<Value> {
    match v {
        Value::List(items) => items,
        _ => panic!("expected a list value"),
    }
}

#[test]
fn it_matches_basic_iteration() {
    let toks = vec![ident("hello"), ident("world"), ident("hi")];
    let (v, l) = parse(&rep(g_ident()), &toks).unwrap();
    assert_eq!(l, 0);
    assert_eq!(list_parts(v).len(), 3);
}

#[test]
fn it_specifies_correct_backstep() {
    let toks = vec![ident("hello"), ident("world"), ident("hi")];
    let (v, l) = parse(&rep(seq2(g_ident(), g_ident())), &toks).unwrap();
    assert_eq!(l, 1);
    assert_eq!(list_parts(v).len(), 1);
}

#[test]
fn it_can_work_on_individual_backtracks() {
    let toks = vec![ident("hello"), ident("world"), ident("hi")];
    let (v, l) = parse(&rep(seq2(g_ident(), opt(g_punct()))), &toks).unwrap();
    assert_eq!(l, 0);
    assert_eq!(list_parts(v).len(), 3);
}

#[test]
fn it_matches_specific_idents() {
    let g = Grammar::AndNot(Box::new(g_ident()), Box::new(g_fident("struct")));
    let (v, _) = parse(&g, &vec![ident("pub")]).unwrap();
    assert_eq!(ident_text(&v), "pub");

    let g = Grammar::AndNot(Box::new(g_ident()), Box::new(g_fident("struct")));
    parse(&g, &vec![ident("struct")]).unwrap_err();
}

fn g_int() -> Grammar {
    Grammar::Lit(LitMachine { kind: LitKind::Integer })
}

fn g_float() -> Grammar {
    Grammar::Lit(LitMachine { kind: LitKind::Float })
}

#[test]
fn it_matches_int() {
    parse_terminal(&g_int(), &vec![Token::Literal(LitKind::Integer, "0".to_string())]).unwrap();
}

#[test]
fn it_matches_signed_int() {
    let toks = vec![punct_a('-'), Token::Literal(LitKind::Integer, "10".to_string())];
    parse_terminal(&seq2(g_fpunct('-'), g_int()), &toks).unwrap();
}

#[test]
fn it_matches_float() {
    parse_terminal(&g_float(), &vec![Token::Literal(LitKind::Float, "0.0".to_string())]).unwrap();
}

#[test]
fn it_matches_signed_float() {
    let toks = vec![punct_a('-'), Token::Literal(LitKind::Float, "10.0".to_string())];
    parse_terminal(&seq2(g_fpunct('-'), g_float()), &toks).unwrap();
}

#[test]
fn end_recognizer_requires_termination() {
    let (v, l) = parse(&Grammar::End(Terminate), &vec![]).unwrap();
    assert!(matches!(v, Value::Fin));
    assert_eq!(l, 0);
    let e = parse(&Grammar::End(Terminate), &vec![ident("x")]).unwrap_err();
    assert!(matches!(e, ParseError::End(_)));
}

#[test]
fn primitive_errors_carry_the_offending_token() {
    let e = parse(&g_ident(), &vec![punct_a('+')]).unwrap_err();
    assert!(matches!(e, ParseError::Ident(_)));
    let e = parse(&g_ident(), &vec![]).unwrap_err();
    assert!(matches!(e, ParseError::Ident(_)));
    let e = parse(&g_punct(), &vec![ident("x")]).unwrap_err();
    assert!(matches!(e, ParseError::Punct(PunctError::Val(_))));
    let e = parse(
        &Grammar::Punct(PunctMachine { spacing: Some(Spacing::Joint) }),
        &vec![punct_a('+')],
    )
    .unwrap_err();
    assert!(matches!(
        e,
        ParseError::Punct(PunctError::InvalidSpacing(Spacing::Joint, Spacing::Alone))
    ));
    let e = parse(
        &g_fpunct_sp('+', Spacing::Joint),
        &vec![punct_a('+')],
    )
    .unwrap_err();
    assert!(matches!(
        e,
        ParseError::FixedPunct(FixedPunctError::InvalidSpacing(Spacing::Joint, Spacing::Alone))
    ));
    let e = parse(&g_int(), &vec![ident("x")]).unwrap_err();
    assert!(matches!(e, ParseError::Lit(TypedLit::Val(LitKind::Integer, _))));
    let e = parse(&Grammar::Group(None, Box::new(g_ident())), &vec![ident("x")]).unwrap_err();
    assert!(matches!(e, ParseError::Group(GroupError::InvalidToken(_))));
    let e = parse(&Grammar::Group(None, Box::new(g_ident())), &vec![]).unwrap_err();
    assert!(matches!(e, ParseError::Group(GroupError::Termination)));
}

#[test]
fn group_interior_must_parse_exactly() {
    let toks = vec![group(Delimiter::Bracket, vec![ident("a"), ident("b")])];
    let g = Grammar::Group(None, Box::new(g_ident()));
    let e = parse(&g, &toks).unwrap_err();
    match e {
        ParseError::Group(GroupError::Nested(te)) => {
            assert!(matches!(*te, TerminalError::NonTerminal));
        },
        other => panic!("unexpected error: {:?}", other),
    }
}

#[test]
fn sequence_error_retains_first_output() {
    let toks = vec![ident("a"), punct_a('+')];
    let e = parse(&seq2(g_ident(), g_ident()), &toks).unwrap_err();
    match e {
        ParseError::Sequence(TupleError::Second(first, inner)) => {
            assert_eq!(ident_text(&first), "a");
            assert!(matches!(*inner, ParseError::Ident(_)));
        },
        other => panic!("unexpected error: {:?}", other),
    }
    let e = parse(&seq2(g_ident(), g_ident()), &vec![punct_a('+')]).unwrap_err();
    assert!(matches!(e, ParseError::Sequence(TupleError::First(_))));
}

#[test]
fn min_length_reports_too_short() {
    let g = Grammar::MinLength(2, Box::new(rep(g_ident())));
    let toks = vec![ident("a")];
    let e = parse_terminal(&g, &toks).unwrap_err();
    match e {
        TerminalError::Inner(inner) => match *inner {
            ParseError::Length(LengthError::InvalidLength(2, 1)) => {},
            other => panic!("unexpected error: {:?}", other),
        },
        other => panic!("unexpected error: {:?}", other),
    }
    let toks = vec![ident("a"), ident("b")];
    parse_terminal(&g, &toks).unwrap();
}

#[test]
fn and_not_rejects_when_both_match() {
    let g = Grammar::AndNot(Box::new(g_ident()), Box::new(g_ident()));
    let e = parse(&g, &vec![ident("x")]).unwrap_err();
    assert!(matches!(
        e,
        ParseError::AndNot(syn_state_machine::error::AndNotError::FailedCondition(_, _, _, _))
    ));
    let g = Grammar::AndNot(Box::new(g_punct()), Box::new(g_ident()));
    let e = parse(&g, &vec![ident("x")]).unwrap_err();
    assert!(matches!(
        e,
        ParseError::AndNot(syn_state_machine::error::AndNotError::ValidFailed(_))
    ));
}

#[test]
fn basic_tests() {
    let (v, k) = parse(&g_ident(), &vec![ident("x")]).unwrap();
    assert_eq!(ident_text(&v), "x");
    assert_eq!(k, 0);
    parse(&g_fpunct('#'), &vec![punct_a('#')]).unwrap();
    parse(&g_fident("x"), &vec![punct_a('#')]).unwrap_err();
}
