use proofcheck::parser::{
    parse_claim, parse_claim_text, parse_sequent, tokenize_claim, ClaimToken, ParseError,
};
use proofcheck::propositional::{Claim, LiteralContainer};
use proofcheck::render::render_claim;

fn ident(name: &str) -> Claim {
    Claim::Identifier(name.to_string())
}

fn conj(l: Claim, r: Claim) -> Claim {
    Claim::Conjunction(Box::new(l), Box::new(r))
}

fn disj(l: Claim, r: Claim) -> Claim {
    Claim::Disjunction(Box::new(l), Box::new(r))
}

fn imply(l: Claim, r: Claim) -> Claim {
    Claim::Implication(Box::new(l), Box::new(r))
}

fn neg(x: Claim) -> Claim {
    Claim::Negation(Box::new(x))
}

#[test]
fn tokenize_claim_classifies() {
    let ts = tokenize_claim("(p ∧ ⊤) → ¬q ∨ ⊥").unwrap();
    assert_eq!(
        ts,
        vec![
            ClaimToken::LeftParenthese,
            ClaimToken::Identifier("p".to_string()),
            ClaimToken::Conjunction,
            ClaimToken::BoolLiteral(true),
            ClaimToken::RightParenthese,
            ClaimToken::Implication,
            ClaimToken::Negation,
            ClaimToken::Identifier("q".to_string()),
            ClaimToken::Disjunction,
            ClaimToken::BoolLiteral(false),
        ]
    );
}

#[test]
fn tokenize_claim_rejects_unknown() {
    assert_eq!(tokenize_claim("p + q"), Err(ParseError::UnexpectedToken));
}

#[test]
fn parse_simple_atoms() {
    assert_eq!(parse_claim_text("p"), Ok(ident("p")));
    assert_eq!(
        parse_claim_text("⊤"),
        Ok(Claim::Literal(LiteralContainer::Bool(true)))
    );
    assert_eq!(
        parse_claim_text("⊥"),
        Ok(Claim::Literal(LiteralContainer::Bool(false)))
    );
}

#[test]
fn precedence_disjunction_binds_looser_than_conjunction() {
    // `a ∨ b ∧ c` parses identically to `a ∨ (b ∧ c)`.
    let bare = parse_claim_text("a ∨ b ∧ c").unwrap();
    let parenthesized = parse_claim_text("a ∨ (b ∧ c)").unwrap();
    assert_eq!(bare, parenthesized);
    assert_eq!(bare, disj(ident("a"), conj(ident("b"), ident("c"))));
}

#[test]
fn precedence_implication_is_right_associative() {
    // `a → b → c` parses as `a → (b → c)`.
    let bare = parse_claim_text("a → b → c").unwrap();
    let parenthesized = parse_claim_text("a → (b → c)").unwrap();
    assert_eq!(bare, parenthesized);
    assert_eq!(bare, imply(ident("a"), imply(ident("b"), ident("c"))));
}

#[test]
fn conjunction_chains_left() {
    let c = parse_claim_text("a ∧ b ∧ c").unwrap();
    assert_eq!(c, conj(conj(ident("a"), ident("b")), ident("c")));
}

#[test]
fn disjunction_chains_left() {
    let c = parse_claim_text("a ∨ b ∨ c").unwrap();
    assert_eq!(c, disj(disj(ident("a"), ident("b")), ident("c")));
}

#[test]
fn negation_folds_onto_atom() {
    let c = parse_claim_text("¬¬p ∧ q").unwrap();
    assert_eq!(c, conj(neg(neg(ident("p"))), ident("q")));
}

#[test]
fn parse_error_unexpected_end() {
    assert_eq!(parse_claim_text(""), Err(ParseError::UnexpectedEnd));
    assert_eq!(parse_claim_text("a ∧"), Err(ParseError::UnexpectedEnd));
}

#[test]
fn parse_error_unmatched_parenthesis() {
    assert_eq!(
        parse_claim_text("(a ∧ b"),
        Err(ParseError::UnmatchedParenthesis)
    );
}

#[test]
fn parse_error_reserved_identifier() {
    assert_eq!(
        parse_claim_text("true ∧ a"),
        Err(ParseError::ReservedIdentifier)
    );
    assert_eq!(parse_claim_text("implies"), Err(ParseError::ReservedIdentifier));
}

#[test]
fn parse_error_trailing_tokens() {
    assert_eq!(parse_claim_text("a b"), Err(ParseError::UnexpectedToken));
    assert_eq!(parse_claim_text("a ) b"), Err(ParseError::UnexpectedToken));
}

#[test]
fn parse_claim_from_tokens() {
    let ts = vec![
        ClaimToken::Identifier("p".to_string()),
        ClaimToken::Conjunction,
        ClaimToken::Identifier("q".to_string()),
    ];
    assert_eq!(parse_claim(&ts), Ok(conj(ident("p"), ident("q"))));
}

#[test]
fn render_is_fully_parenthesized() {
    let c = conj(ident("p"), neg(ident("q")));
    assert_eq!(render_claim(&c), "(p∧(¬q))");
    let lit = Claim::Literal(LiteralContainer::Bool(true));
    assert_eq!(render_claim(&lit), "⊤");
}

#[test]
fn round_trip_renders_and_reparses() {
    // Rendering to fully parenthesized text and re-parsing yields a
    // structurally equal claim.
    let cases = vec![
        ident("p"),
        Claim::Literal(LiteralContainer::Bool(false)),
        neg(ident("p")),
        conj(ident("p"), ident("q")),
        disj(neg(ident("a")), imply(ident("b"), ident("c"))),
        imply(imply(ident("a"), ident("b")), conj(ident("c"), neg(ident("d")))),
    ];
    for c in cases {
        let text = render_claim(&c);
        let back = parse_claim_text(text.as_str()).unwrap();
        assert!(back.structurally_equals(&c));
        assert_eq!(back, c);
    }
}

#[test]
fn sequent_with_premises() {
    let sq = parse_sequent("p, p→q ⊢ q").unwrap();
    assert_eq!(sq.known, vec![ident("p"), imply(ident("p"), ident("q"))]);
    assert_eq!(sq.to_verify, ident("q"));
}

#[test]
fn sequent_without_premises() {
    let sq = parse_sequent(" ⊢ p ∨ ¬p").unwrap();
    assert!(sq.known.is_empty());
    assert_eq!(sq.to_verify, disj(ident("p"), neg(ident("p"))));
}

#[test]
fn sequent_without_turnstile_fails() {
    assert_eq!(parse_sequent("p, q"), Err(ParseError::UnexpectedEnd));
}
