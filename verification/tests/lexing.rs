use proofcheck::lexer::{lex, LexToken, SyntaxKind};

fn assert_token(
    tokens: &[LexToken],
    source: &str,
    index: usize,
    token: SyntaxKind,
    span: std::ops::Range<usize>,
    slice: &str,
) {
    let t = &tokens[index];
    assert_eq!(t.kind, token);
    assert_eq!(t.start..t.end, span);
    assert_eq!(&source[t.start..t.end], slice);
}

#[test]
fn propositional() {
    let source = "p, q ⊢ q\n{\n  13. q   premise\n}";
    let tokens = lex(source.as_bytes()).unwrap();

    assert_token(&tokens, source, 0, SyntaxKind::Identifier, 0..1, "p");
    assert_token(&tokens, source, 1, SyntaxKind::Comma, 1..2, ",");
    assert_token(&tokens, source, 2, SyntaxKind::WhiteSpace, 2..3, " ");
    assert_token(&tokens, source, 3, SyntaxKind::Identifier, 3..4, "q");
    assert_token(&tokens, source, 4, SyntaxKind::WhiteSpace, 4..5, " ");
    assert_token(&tokens, source, 5, SyntaxKind::Turnstile, 5..8, "⊢");
    assert_token(&tokens, source, 6, SyntaxKind::WhiteSpace, 8..9, " ");
    assert_token(&tokens, source, 7, SyntaxKind::Identifier, 9..10, "q");
    assert_token(&tokens, source, 8, SyntaxKind::Newline, 10..11, "\n");
    assert_token(&tokens, source, 9, SyntaxKind::LeftBrace, 11..12, "{");
    assert_token(&tokens, source, 10, SyntaxKind::Newline, 12..13, "\n");
    assert_token(&tokens, source, 11, SyntaxKind::WhiteSpace, 13..15, "  ");
    assert_token(&tokens, source, 12, SyntaxKind::Integer, 15..17, "13");
    assert_token(&tokens, source, 13, SyntaxKind::Period, 17..18, ".");
    assert_token(&tokens, source, 14, SyntaxKind::WhiteSpace, 18..19, " ");
    assert_token(&tokens, source, 15, SyntaxKind::Identifier, 19..20, "q");
    assert_token(&tokens, source, 16, SyntaxKind::WhiteSpace, 20..23, "   ");
    assert_token(&tokens, source, 17, SyntaxKind::Premise, 23..30, "premise");
    assert_token(&tokens, source, 18, SyntaxKind::Newline, 30..31, "\n");
    assert_token(&tokens, source, 19, SyntaxKind::RightBrace, 31..32, "}");
    assert_eq!(tokens.len(), 20);
}

#[test]
fn keywords_yield_to_longer_identifiers() {
    let tokens = lex("assume assumed pbc pbcx".as_bytes()).unwrap();
    assert_eq!(tokens[0].kind, SyntaxKind::Assume);
    assert_eq!(tokens[2].kind, SyntaxKind::Identifier);
    assert_eq!((tokens[2].start, tokens[2].end), (7, 14));
    assert_eq!(tokens[4].kind, SyntaxKind::ProofByContradiction);
    assert_eq!(tokens[6].kind, SyntaxKind::Identifier);
}

#[test]
fn rule_names_take_the_longest_match() {
    let source = "∧i ∧e1 ∧e2 ∨i1 ∨i2 ∨e →i →e ¬i ¬e ⊥e ∧ ∨ → ¬ ⊥ ⊤";
    let tokens: Vec<_> = lex(source.as_bytes())
        .unwrap()
        .into_iter()
        .filter(|t| t.kind != SyntaxKind::WhiteSpace)
        .collect();
    let kinds: Vec<SyntaxKind> = tokens.iter().map(|t| t.kind).collect();
    assert_eq!(
        kinds,
        vec![
            SyntaxKind::AndIntroduction,
            SyntaxKind::AndElimination1,
            SyntaxKind::AndElimination2,
            SyntaxKind::OrIntroduction1,
            SyntaxKind::OrIntroduction2,
            SyntaxKind::OrElimination,
            SyntaxKind::ImplicationIntroduction,
            SyntaxKind::ImplicationElimination,
            SyntaxKind::NegationIntroduction,
            SyntaxKind::NegationElimination,
            SyntaxKind::ContradictionElimination,
            SyntaxKind::Conjunction,
            SyntaxKind::Disjunction,
            SyntaxKind::Implication,
            SyntaxKind::Negation,
            SyntaxKind::FalseLiteral,
            SyntaxKind::TrueLiteral,
        ]
    );
}

#[test]
fn dashes_spell_a_turnstile_only_at_three() {
    let tokens = lex("----".as_bytes()).unwrap();
    assert_eq!(tokens.len(), 1);
    assert_eq!(tokens[0].kind, SyntaxKind::Turnstile);
    assert_eq!((tokens[0].start, tokens[0].end), (0, 4));
    assert_eq!(lex("--".as_bytes()), Err(0));
}

#[test]
fn an_unknown_byte_reports_its_position() {
    assert_eq!(lex("pq @".as_bytes()), Err(3));
}
