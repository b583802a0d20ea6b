use syn_state_machine::error::ParseError;
use syn_state_machine::grammar::{
    FixedIdentMachine, FixedPunctMachine, Grammar, IdentMachine, PunctMachine,
};
use syn_state_machine::token::{Delimiter, Spacing, Token};
use syn_state_machine::value::Value;
use syn_state_machine::{parse, parse_terminal};

fn ident(s: &str) -> Token {
    Token::Ident(s.to_string())
}

fn punct_a(c: char) -> Token {
    Token::Punct(c, Spacing::Alone)
}

fn g_ident() -> Grammar {
    Grammar::Ident(IdentMachine)
}

fn g_fident(s: &str) -> Grammar {
    Grammar::FixedIdent(FixedIdentMachine { ident: s.to_string() })
}

fn g_punct() -> Grammar {
    Grammar::Punct(PunctMachine { spacing: None })
}

fn g_fpunct(c: char) -> Grammar {
    Grammar::FixedPunct(FixedPunctMachine { punct: c, spacing: None })
}

fn seq2(a: Grammar, b: Grammar) -> Grammar {
    Grammar::Sequence(Box::new(a), Box::new(b))
}

fn ident_text(v: &Value) -> &str {
    match v {
        Value::Ident(s) => s.as_str(),
        _ => panic!("expected an identifier value"),
    }
}

#[test]
fn scenario_fixed_identifier() {
    let (v, k) = parse(&g_fident("hello"), &vec![ident("hello")]).unwrap();
    assert_eq!(ident_text(&v), "hello");
    assert_eq!(k, 0);
}

#[test]
fn scenario_two_identifiers() {
    let toks = vec![ident("hello"), ident("world")];
    let (v, k) = parse(&seq2(g_ident(), g_ident()), &toks).unwrap();
    assert_eq!(k, 0);
    match v {
        Value::Pair(a, b) => {
            assert_eq!(ident_text(&a), "hello");
            assert_eq!(ident_text(&b), "world");
        },
        _ => panic!("expected a pair"),
    }
}

#[test]
fn scenario_optional_then_punctuation() {
    let toks = vec![punct_a('<')];
    let g = seq2(Grammar::Optional(Box::new(g_ident())), g_punct());
    let (v, k) = parse(&g, &toks).unwrap();
    assert_eq!(k, 0);
    match v {
        Value::Pair(a, b) => {
            assert!(matches!(*a, Value::Maybe(None)));
            assert!(matches!(*b, Value::Punct('<', _)));
        },
        _ => panic!("expected a pair"),
    }
}

#[test]
fn scenario_interleaved_identifiers() {
    let toks = vec![
        ident("a"),
        punct_a(','),
        ident("b"),
        punct_a(','),
        ident("c"),
    ];
    let g = Grammar::Interleave(Box::new(g_ident()), Box::new(g_fpunct(',')));
    let (v, k) = parse(&g, &toks).unwrap();
    assert_eq!(k, 0);
    match v {
        Value::Interlaced(il) => {
            let names: Vec<&str> = il.0.iter().map(ident_text).collect();
            assert_eq!(names, ["a", "b", "c"]);
            assert_eq!(il.1.len(), 2);
            assert!(il.1.iter().all(|s| matches!(s, Value::Punct(',', _))));
        },
        _ => panic!("expected an interleave value"),
    }
}

#[test]
fn scenario_group_delimiters() {
    let toks = vec![Token::Group(Delimiter::Parenthesis, vec![ident("x")])];
    let g = Grammar::Group(Some(Delimiter::Parenthesis), Box::new(g_ident()));
    parse(&g, &toks).unwrap();

    let toks = vec![Token::Group(Delimiter::Parenthesis, vec![ident("x")])];
    let g = Grammar::Group(Some(Delimiter::Brace), Box::new(g_ident()));
    let e = parse(&g, &toks).unwrap_err();
    assert!(matches!(
        e,
        ParseError::Group(syn_state_machine::error::GroupError::InvalidDelimiter(
            Delimiter::Brace,
            Delimiter::Parenthesis,
        ))
    ));
}

#[test]
fn scenario_alternation_prefers_lowest_branch() {
    let g = Grammar::Alternation(vec![g_fident("if"), g_ident()]);
    let (v, k) = parse(&g, &vec![ident("if")]).unwrap();
    assert_eq!(k, 0);
    match v {
        Value::Branch(i, inner) => {
            assert_eq!(i, 0);
            assert_eq!(ident_text(&inner), "if");
        },
        _ => panic!("expected a branch value"),
    }
}

#[test]
fn alternation_takes_later_branch_when_lower_fails() {
    let g = Grammar::Alternation(vec![g_fident("if"), g_ident()]);
    let (v, _) = parse(&g, &vec![ident("loop")]).unwrap();
    match v {
        Value::Branch(i, inner) => {
            assert_eq!(i, 1);
            assert_eq!(ident_text(&inner), "loop");
        },
        _ => panic!("expected a branch value"),
    }
}

#[test]
fn alternation_error_has_one_entry_per_branch() {
    for n in [2usize, 5, 14] {
        let mut branches: Vec<Grammar> = Vec::new();
        for _ in 0..n {
            branches.push(g_fident("kw"));
        }
        let g = Grammar::Alternation(branches);
        let e = parse(&g, &vec![ident("other")]).unwrap_err();
        match e {
            ParseError::Alternation(es) => assert_eq!(es.len(), n),
            _ => panic!("expected an alternation error"),
        }
    }
}

#[test]
fn repetition_succeeds_on_every_input() {
    let g = Grammar::Repetition(Box::new(g_ident()));
    let (v, k) = parse(&g, &vec![]).unwrap();
    assert!(matches!(v, Value::List(l) if l.is_empty()));
    assert_eq!(k, 0);

    let g = Grammar::Repetition(Box::new(g_ident()));
    let toks = vec![punct_a('+'), punct_a('-')];
    let (v, k) = parse(&g, &toks).unwrap();
    assert!(matches!(v, Value::List(l) if l.is_empty()));
    assert_eq!(k, 1);
}

#[test]
fn optional_round_trip() {
    let (v, k) = parse(&Grammar::Optional(Box::new(g_ident())), &vec![ident("x")]).unwrap();
    match v {
        Value::Maybe(Some(inner)) => assert_eq!(ident_text(&inner), "x"),
        _ => panic!("expected a present optional"),
    }
    assert_eq!(k, 0);

    let (v, k) = parse(&Grammar::Optional(Box::new(g_ident())), &vec![]).unwrap();
    assert!(matches!(v, Value::Maybe(None)));
    assert_eq!(k, 0);

    let (v, k) = parse(&Grammar::Optional(Box::new(g_ident())), &vec![punct_a('<')]).unwrap();
    assert!(matches!(v, Value::Maybe(None)));
    assert_eq!(k, 1);
}

#[test]
fn backtrack_never_exceeds_tokens_fed() {
    let grammars = [
        Grammar::Repetition(Box::new(seq2(g_ident(), g_ident()))),
        Grammar::Optional(Box::new(seq2(g_ident(), seq2(g_ident(), g_punct())))),
        Grammar::Interleave(Box::new(g_ident()), Box::new(g_fpunct(','))),
    ];
    let toks = vec![ident("a"), ident("b"), ident("c"), punct_a(','), ident("d")];
    for g in grammars {
        if let Ok((_, k)) = parse(&g, &toks) {
            assert!(k <= toks.len());
        }
    }
}

#[test]
fn sequence_regrouping_agrees() {
    // (A, (B, C)) and ((A, B), C) agree on an unambiguous grammar: same
    // coverage, same backtrack, and the outputs re-associate.
    let toks = vec![ident("a"), punct_a(':'), ident("b")];
    let right = seq2(g_ident(), seq2(g_punct(), g_ident()));
    let left = seq2(seq2(g_ident(), g_punct()), g_ident());
    let (rv, rk) = parse(&right, &toks).unwrap();
    let (lv, lk) = parse(&left, &toks).unwrap();
    assert_eq!(rk, lk);
    let (ra, rb, rc) = match rv {
        Value::Pair(a, rest) => match *rest {
            Value::Pair(b, c) => (*a, *b, *c),
            _ => panic!("expected a nested pair"),
        },
        _ => panic!("expected a pair"),
    };
    let (la, lb, lc) = match lv {
        Value::Pair(rest, c) => match *rest {
            Value::Pair(a, b) => (*a, *b, *c),
            _ => panic!("expected a nested pair"),
        },
        _ => panic!("expected a pair"),
    };
    assert_eq!(ident_text(&ra), ident_text(&la));
    assert!(matches!((&rb, &lb), (Value::Punct(':', _), Value::Punct(':', _))));
    assert_eq!(ident_text(&rc), ident_text(&lc));
}

#[test]
fn sequence_regrouping_agrees_with_backtracking() {
    // The same, on a grammar whose first part backtracks into the second.
    let toks = vec![ident("a"), punct_a('<')];
    let right = seq2(g_ident(), seq2(Grammar::Optional(Box::new(g_ident())), g_punct()));
    let left = seq2(seq2(g_ident(), Grammar::Optional(Box::new(g_ident()))), g_punct());
    let (_, rk) = parse(&right, &toks).unwrap();
    let (_, lk) = parse(&left, &toks).unwrap();
    assert_eq!(rk, 0);
    assert_eq!(lk, 0);
}

#[test]
fn determinism_repeated_runs_agree() {
    let toks = vec![ident("a"), punct_a(','), ident("b")];
    let g1 = Grammar::Interleave(Box::new(g_ident()), Box::new(g_fpunct(',')));
    let g2 = Grammar::Interleave(Box::new(g_ident()), Box::new(g_fpunct(',')));
    let r1 = parse(&g1, &toks);
    let r2 = parse(&g2, &toks);
    match (r1, r2) {
        (Ok((v1, k1)), Ok((v2, k2))) => {
            assert_eq!(k1, k2);
            let (i1, s1) = match v1 {
                Value::Interlaced(il) => (il.0.len(), il.1.len()),
                _ => panic!("expected an interleave value"),
            };
            let (i2, s2) = match v2 {
                Value::Interlaced(il) => (il.0.len(), il.1.len()),
                _ => panic!("expected an interleave value"),
            };
            assert_eq!(i1, i2);
            assert_eq!(s1, s2);
        },
        _ => panic!("both runs must succeed"),
    }
}

#[test]
fn exact_parse_rejects_leftover_tokens() {
    let toks = vec![ident("a"), ident("b")];
    let e = parse_terminal(&g_ident(), &toks).unwrap_err();
    assert!(matches!(e, syn_state_machine::error::TerminalError::NonTerminal));
}
