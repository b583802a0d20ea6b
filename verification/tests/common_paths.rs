use syn_state_machine::common_tokens::{
    Lifetime, Segment, SimplePath, SimplePathError, UnitStruct, Visability,
};
use syn_state_machine::grammar::{
    FixedIdentMachine, FixedPunctMachine, Grammar, IdentMachine, PunctMachine,
};
use syn_state_machine::token::{Delimiter, Spacing, Token};
use syn_state_machine::value::Value;
use syn_state_machine::{parse, parse_terminal};

fn ident(s: &str) -> Token {
    Token::Ident(s.to_string())
}

fn punct_a(c: char) -> Token {
    Token::Punct(c, Spacing::Alone)
}

fn punct_j(c: char) -> Token {
    Token::Punct(c, Spacing::Joint)
}

fn dcolon(toks: &mut Vec<Token>) {
    toks.push(punct_j(':'));
    toks.push(punct_a(':'));
}

#[test]
fn it_stops_on_invalid_token() {
    let g = Grammar::Sequence(
        Box::new(Grammar::Repetition(Box::new(Grammar::Ident(IdentMachine)))),
        Box::new(Grammar::Sequence(
            Box::new(Grammar::FixedPunct(FixedPunctMachine { punct: '>', spacing: None })),
            Box::new(Grammar::FixedPunct(FixedPunctMachine { punct: ';', spacing: None })),
        )),
    );
    let toks = vec![ident("id"), punct_j('>'), punct_a(';')];
    parse_terminal(&g, &toks).unwrap();
}

#[test]
fn it_matches_ident() {
    let path = SimplePath::parse(&vec![ident("hello")]).unwrap();
    assert_eq!(path.leading_double_colon, false);
    assert_eq!(path.segments.len(), 1);
    match &path.segments[0] {
        Segment::Id(s) => assert_eq!(s.as_str(), "hello"),
        Segment::DCrate => panic!("expected a plain segment"),
    }
}

#[test]
fn it_matches_common_paths() {
    let mut toks: Vec<Token> = Vec::new();
    dcolon(&mut toks);
    toks.push(ident("hello"));
    dcolon(&mut toks);
    toks.push(ident("world"));
    dcolon(&mut toks);
    toks.push(ident("super"));
    dcolon(&mut toks);
    toks.push(ident("crate"));
    dcolon(&mut toks);
    toks.push(ident("self"));

    let path = SimplePath::parse(&toks).unwrap();
    assert!(path.leading_double_colon);
    let expected = ["hello", "world", "super", "crate", "self"];
    assert_eq!(path.segments.len(), expected.len());
    for (seg, want) in path.segments.iter().zip(expected.iter()) {
        match seg {
            Segment::Id(s) => assert_eq!(s.as_str(), *want),
            Segment::DCrate => panic!("expected a plain segment"),
        }
    }
}

#[test]
fn dollar_crate_segment() {
    let path = SimplePath::parse(&vec![punct_j('$'), ident("crate")]).unwrap();
    assert_eq!(path.segments.len(), 1);
    assert!(matches!(path.segments[0], Segment::DCrate));
}

#[test]
fn empty_path_is_rejected() {
    match SimplePath::parse(&vec![]) {
        Err(SimplePathError::NoLength) => {},
        _ => panic!("an empty path must be rejected for want of a segment"),
    }
}

#[test]
fn lifetime_matches() {
    let g = Lifetime::grammar();
    let v = parse_terminal(&g, &vec![punct_j('\''), ident("a")]).unwrap();
    let lt = Lifetime::from_value(v).unwrap();
    assert_eq!(lt.ident.as_str(), "a");
    let g = Lifetime::grammar();
    parse_terminal(&g, &vec![punct_a('\''), ident("a")]).unwrap_err();
}

#[test]
fn visability_forms() {
    let g = Visability::grammar();
    let v = parse_terminal(&g, &vec![ident("pub")]).unwrap();
    assert!(matches!(Visability::from_value(v), Some(Visability::Pub)));

    let g = Visability::grammar();
    let toks = vec![ident("pub"), Token::Group(Delimiter::Parenthesis, vec![ident("crate")])];
    let v = parse_terminal(&g, &toks).unwrap();
    assert!(matches!(Visability::from_value(v), Some(Visability::PubCrate)));

    let g = Visability::grammar();
    let toks = vec![ident("pub"), Token::Group(Delimiter::Parenthesis, vec![ident("super")])];
    let v = parse_terminal(&g, &toks).unwrap();
    assert!(matches!(Visability::from_value(v), Some(Visability::PubSuper)));
}

#[test]
fn unit_struct_declaration() {
    let g = UnitStruct::grammar();
    let toks = vec![ident("struct"), ident("Marker"), punct_a(';')];
    let v = parse_terminal(&g, &toks).unwrap();
    let us = UnitStruct::from_value(v).unwrap();
    assert_eq!(us.name.as_str(), "Marker");
}

#[test]
fn any_punct_keeps_its_character() {
    let g = Grammar::Punct(PunctMachine { spacing: None });
    let (v, l) = parse(&g, &vec![punct_a('#')]).unwrap();
    assert_eq!(l, 0);
    assert!(matches!(v, Value::Punct('#', Spacing::Alone)));
}

#[test]
fn fixed_ident_requires_exact_text() {
    let g = Grammar::FixedIdent(FixedIdentMachine { ident: "hello".to_string() });
    let e = parse(&g, &vec![ident("world")]).unwrap_err();
    assert!(matches!(
        e,
        syn_state_machine::error::ParseError::FixedIdent(
            syn_state_machine::error::FixedIdentError::Val(_, _)
        )
    ));
}
