use proofcheck::kind::{kind_check, KindEnv, KindError};
use proofcheck::propositional::{Claim, Kind, LiteralContainer};

fn ident(name: &str) -> Claim {
    Claim::Identifier(name.to_string())
}

fn env_of(entries: Vec<(&str, Kind)>) -> KindEnv {
    KindEnv {
        entries: entries
            .into_iter()
            .map(|(n, k)| (n.to_string(), k))
            .collect(),
    }
}

#[test]
fn negating_a_non_bool_literal_fails() {
    // Negating a non-Bool literal fails with KindMismatch.
    let c = Claim::Negation(Box::new(Claim::Literal(LiteralContainer::Int(5))));
    let env = env_of(vec![]);
    assert_eq!(
        kind_check(&c, &env, false),
        Err(KindError::KindMismatch {
            expected: Kind::Bool,
            found: Kind::Int,
            position: 1,
        })
    );
}

#[test]
fn conjunction_of_bool_identifiers_succeeds() {
    // Conjunction of two Bool identifiers succeeds.
    let c = Claim::Conjunction(Box::new(ident("p")), Box::new(ident("q")));
    let env = env_of(vec![("p", Kind::Bool), ("q", Kind::Bool)]);
    assert_eq!(kind_check(&c, &env, true), Ok(Kind::Bool));
}

#[test]
fn undeclared_identifier_fails_under_strict_mode() {
    let env = env_of(vec![]);
    assert_eq!(
        kind_check(&ident("p"), &env, true),
        Err(KindError::UnknownIdentifier { position: 0 })
    );
}

#[test]
fn undeclared_identifier_defaults_to_bool_otherwise() {
    let env = env_of(vec![]);
    assert_eq!(kind_check(&ident("p"), &env, false), Ok(Kind::Bool));
}

#[test]
fn a_bare_int_literal_keeps_its_kind() {
    let env = env_of(vec![]);
    let c = Claim::Literal(LiteralContainer::Int(42));
    assert_eq!(kind_check(&c, &env, true), Ok(Kind::Int));
}

#[test]
fn mismatch_position_is_the_operand_preorder_index() {
    // In p ∧ ¬3: root 0, p at 1, negation at 2, literal at 3; the
    // ill-kinded operand of the negation stands at position 3.
    let c = Claim::Conjunction(
        Box::new(ident("p")),
        Box::new(Claim::Negation(Box::new(Claim::Literal(
            LiteralContainer::Int(3),
        )))),
    );
    let env = env_of(vec![("p", Kind::Bool)]);
    assert_eq!(
        kind_check(&c, &env, true),
        Err(KindError::KindMismatch {
            expected: Kind::Bool,
            found: Kind::Int,
            position: 3,
        })
    );
}

#[test]
fn ill_kinded_int_under_an_operator_fails() {
    let c = Claim::Conjunction(
        Box::new(Claim::Literal(LiteralContainer::Int(1))),
        Box::new(ident("p")),
    );
    let env = env_of(vec![("p", Kind::Bool)]);
    assert_eq!(
        kind_check(&c, &env, true),
        Err(KindError::KindMismatch {
            expected: Kind::Bool,
            found: Kind::Int,
            position: 1,
        })
    );
}

#[test]
fn declared_kind_resolves_through_the_environment() {
    let env = env_of(vec![("n", Kind::Int)]);
    assert_eq!(kind_check(&ident("n"), &env, true), Ok(Kind::Int));
}
