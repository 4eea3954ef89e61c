use proofcheck::engine::{
    validate_proof, verify, ShapeKind, StructureError, Verdict, VerificationError,
};
use proofcheck::propositional::{
    AssumeStep, Claim, Justification, LiteralContainer, Proof, ProofStep, Sequent,
};

fn ident(name: &str) -> Claim {
    Claim::Identifier(name.to_string())
}

fn conj(l: Claim, r: Claim) -> Claim {
    Claim::Conjunction(Box::new(l), Box::new(r))
}

fn disj(l: Claim, r: Claim) -> Claim {
    Claim::Disjunction(Box::new(l), Box::new(r))
}

fn imply(l: Claim, r: Claim) -> Claim {
    Claim::Implication(Box::new(l), Box::new(r))
}

fn neg(x: Claim) -> Claim {
    Claim::Negation(Box::new(x))
}

fn falsum() -> Claim {
    Claim::Literal(LiteralContainer::Bool(false))
}

fn line(n: usize, claim: Claim, just: Justification) -> ProofStep {
    ProofStep::RegularStep {
        line_number: n,
        claim,
        just,
    }
}

fn subproof(number: usize, assume_line: usize, assumed: Claim, steps: Vec<ProofStep>) -> ProofStep {
    ProofStep::SubProof {
        sub_line_number: number,
        assume_step: (assume_line, AssumeStep::AssumeClaim(assumed)),
        steps,
    }
}

fn sequent(known: Vec<Claim>, goal: Claim) -> Sequent {
    Sequent {
        known,
        to_verify: goal,
    }
}

fn outcome_reason<'a>(v: &'a Verdict, line_number: usize) -> Option<&'a VerificationError> {
    match v {
        Verdict::Disproved { outcomes } => outcomes
            .iter()
            .find(|o| o.line_number == line_number)
            .and_then(|o| o.reason.as_ref()),
        _ => None,
    }
}

#[test]
fn premise_rule_proves_a_premise() {
    // With premises = [p], claim `p` justified by Premise is proved.
    let sq = sequent(vec![ident("p")], ident("p"));
    let steps = vec![line(1, ident("p"), Justification::Premise)];
    assert_eq!(verify(&sq, &steps), Verdict::Proved);
}

#[test]
fn premise_rule_rejects_a_non_premise() {
    // With premises = [p], claim `q` justified by Premise is disproved.
    let sq = sequent(vec![ident("p")], ident("q"));
    let steps = vec![line(1, ident("q"), Justification::Premise)];
    let v = verify(&sq, &steps);
    assert!(matches!(v, Verdict::Disproved { .. }));
    assert_eq!(
        outcome_reason(&v, 1),
        Some(&VerificationError::JustificationMismatch {
            expected: ShapeKind::PremiseMatch,
            found: ident("q"),
        })
    );
}

#[test]
fn and_introduction_respects_order() {
    // `1. p premise`, `2. q premise`, `3. p∧q ∧i(1,2)` is proved...
    let sq = sequent(
        vec![ident("p"), ident("q")],
        conj(ident("p"), ident("q")),
    );
    let steps = vec![
        line(1, ident("p"), Justification::Premise),
        line(2, ident("q"), Justification::Premise),
        line(
            3,
            conj(ident("p"), ident("q")),
            Justification::AndIntroduction(1, 2),
        ),
    ];
    assert_eq!(verify(&sq, &steps), Verdict::Proved);

    // ...but `3. q∧p ∧i(1,2)` is disproved: no implicit commutation.
    let sq2 = sequent(
        vec![ident("p"), ident("q")],
        conj(ident("q"), ident("p")),
    );
    let steps2 = vec![
        line(1, ident("p"), Justification::Premise),
        line(2, ident("q"), Justification::Premise),
        line(
            3,
            conj(ident("q"), ident("p")),
            Justification::AndIntroduction(1, 2),
        ),
    ];
    let v = verify(&sq2, &steps2);
    assert!(matches!(v, Verdict::Disproved { .. }));
    assert!(matches!(
        outcome_reason(&v, 3),
        Some(VerificationError::JustificationMismatch { .. })
    ));
}

#[test]
fn and_elimination_picks_each_part() {
    let pq = conj(ident("p"), ident("q"));
    let sq = sequent(vec![pq.duplicate()], ident("p"));
    let steps = vec![
        line(1, pq.duplicate(), Justification::Premise),
        line(2, ident("p"), Justification::AndElimination1(1)),
    ];
    assert_eq!(verify(&sq, &steps), Verdict::Proved);

    let sq2 = sequent(vec![pq.duplicate()], ident("q"));
    let steps2 = vec![
        line(1, pq, Justification::Premise),
        line(2, ident("q"), Justification::AndElimination2(1)),
    ];
    assert_eq!(verify(&sq2, &steps2), Verdict::Proved);
}

#[test]
fn or_introduction_picks_each_side() {
    let sq = sequent(vec![ident("p")], disj(ident("p"), ident("q")));
    let steps = vec![
        line(1, ident("p"), Justification::Premise),
        line(
            2,
            disj(ident("p"), ident("q")),
            Justification::OrIntroduction1(1),
        ),
    ];
    assert_eq!(verify(&sq, &steps), Verdict::Proved);

    let sq2 = sequent(vec![ident("p")], disj(ident("q"), ident("p")));
    let steps2 = vec![
        line(1, ident("p"), Justification::Premise),
        line(
            2,
            disj(ident("q"), ident("p")),
            Justification::OrIntroduction2(1),
        ),
    ];
    assert_eq!(verify(&sq2, &steps2), Verdict::Proved);
}

#[test]
fn or_elimination_consumes_both_sub_proofs() {
    // p∨q, p→r, q→r ⊢ r by case analysis.
    let sq = sequent(
        vec![
            disj(ident("p"), ident("q")),
            imply(ident("p"), ident("r")),
            imply(ident("q"), ident("r")),
        ],
        ident("r"),
    );
    let steps = vec![
        line(1, disj(ident("p"), ident("q")), Justification::Premise),
        subproof(
            20,
            2,
            ident("p"),
            vec![
                line(3, imply(ident("p"), ident("r")), Justification::Premise),
                line(4, ident("r"), Justification::ImplicationElimination(2, 3)),
            ],
        ),
        subproof(
            21,
            5,
            ident("q"),
            vec![
                line(6, imply(ident("q"), ident("r")), Justification::Premise),
                line(7, ident("r"), Justification::ImplicationElimination(5, 6)),
            ],
        ),
        line(8, ident("r"), Justification::OrElimination(1, 20, 21)),
    ];
    assert_eq!(verify(&sq, &steps), Verdict::Proved);
}

#[test]
fn implication_introduction_discharges_assumption() {
    // q ⊢ p→q: assume p, conclude q, discharge.
    let sq = sequent(vec![ident("q")], imply(ident("p"), ident("q")));
    let steps = vec![
        subproof(
            10,
            1,
            ident("p"),
            vec![line(2, ident("q"), Justification::Premise)],
        ),
        line(
            3,
            imply(ident("p"), ident("q")),
            Justification::ImplicationIntroduction(10),
        ),
    ];
    assert_eq!(verify(&sq, &steps), Verdict::Proved);
}

#[test]
fn negation_rules_work_together() {
    // p→⊥ ⊢ ¬p by negation introduction.
    let sq = sequent(vec![imply(ident("p"), falsum())], neg(ident("p")));
    let steps = vec![
        subproof(
            30,
            1,
            ident("p"),
            vec![
                line(2, imply(ident("p"), falsum()), Justification::Premise),
                line(3, falsum(), Justification::ImplicationElimination(1, 2)),
            ],
        ),
        line(4, neg(ident("p")), Justification::NegationIntroduction(30)),
    ];
    assert_eq!(verify(&sq, &steps), Verdict::Proved);

    // ¬p, p ⊢ ⊥ by negation elimination.
    let sq2 = sequent(vec![neg(ident("p")), ident("p")], falsum());
    let steps2 = vec![
        line(1, neg(ident("p")), Justification::Premise),
        line(2, ident("p"), Justification::Premise),
        line(3, falsum(), Justification::NegationElimination(1, 2)),
    ];
    assert_eq!(verify(&sq2, &steps2), Verdict::Proved);
}

#[test]
fn contradiction_elimination_proves_anything() {
    let sq = sequent(vec![falsum()], ident("q"));
    let steps = vec![
        line(1, falsum(), Justification::Premise),
        line(2, ident("q"), Justification::ContradictionElimination(1)),
    ];
    assert_eq!(verify(&sq, &steps), Verdict::Proved);
}

#[test]
fn proof_by_contradiction_discharges_negated_assumption() {
    // ¬p→⊥ ⊢ p by contradiction.
    let sq = sequent(vec![imply(neg(ident("p")), falsum())], ident("p"));
    let steps = vec![
        subproof(
            40,
            1,
            neg(ident("p")),
            vec![
                line(2, imply(neg(ident("p")), falsum()), Justification::Premise),
                line(3, falsum(), Justification::ImplicationElimination(1, 2)),
            ],
        ),
        line(4, ident("p"), Justification::ProofByContradiction(40)),
    ];
    assert_eq!(verify(&sq, &steps), Verdict::Proved);
}

#[test]
fn end_to_end_modus_ponens_proves() {
    // Sequent p, p→q ⊢ q with steps 1. p premise, 2. p→q premise,
    // 3. q →e(1,2): proved overall.
    let sq = sequent(
        vec![ident("p"), imply(ident("p"), ident("q"))],
        ident("q"),
    );
    let steps = vec![
        line(1, ident("p"), Justification::Premise),
        line(2, imply(ident("p"), ident("q")), Justification::Premise),
        line(3, ident("q"), Justification::ImplicationElimination(1, 2)),
    ];
    assert_eq!(verify(&sq, &steps), Verdict::Proved);
}

#[test]
fn end_to_end_swapped_arguments_disprove() {
    // Same sequent, step 3 becomes q →e(2,1): the argument order
    // violates the rule's assignment and the proof is disproved with a
    // justification mismatch.
    let sq = sequent(
        vec![ident("p"), imply(ident("p"), ident("q"))],
        ident("q"),
    );
    let steps = vec![
        line(1, ident("p"), Justification::Premise),
        line(2, imply(ident("p"), ident("q")), Justification::Premise),
        line(3, ident("q"), Justification::ImplicationElimination(2, 1)),
    ];
    let v = verify(&sq, &steps);
    assert!(matches!(v, Verdict::Disproved { .. }));
    assert!(matches!(
        outcome_reason(&v, 3),
        Some(VerificationError::JustificationMismatch { .. })
    ));
}

#[test]
fn citing_a_closed_sub_proof_line_is_not_visible() {
    // A step outside a closed sub-proof citing that sub-proof's internal
    // line number fails with LineNotVisible.
    let sq = sequent(vec![ident("q")], ident("q"));
    let steps = vec![
        subproof(
            10,
            1,
            ident("p"),
            vec![line(2, ident("q"), Justification::Premise)],
        ),
        line(3, conj(ident("q"), ident("q")), Justification::AndIntroduction(2, 2)),
    ];
    let v = verify(&sq, &steps);
    assert!(matches!(v, Verdict::Disproved { .. }));
    assert_eq!(
        outcome_reason(&v, 3),
        Some(&VerificationError::LineNotVisible { line: 2 })
    );
}

#[test]
fn citing_a_missing_line_is_not_found() {
    let sq = sequent(vec![ident("p")], disj(ident("p"), ident("q")));
    let steps = vec![
        line(1, ident("p"), Justification::Premise),
        line(
            2,
            disj(ident("p"), ident("q")),
            Justification::OrIntroduction1(7),
        ),
    ];
    let v = verify(&sq, &steps);
    assert_eq!(
        outcome_reason(&v, 2),
        Some(&VerificationError::LineNotFound { line: 7 })
    );
}

#[test]
fn citing_a_failed_line_cascades_unproved() {
    let sq = sequent(vec![ident("p")], disj(ident("q"), ident("r")));
    let steps = vec![
        line(1, ident("q"), Justification::Premise),
        line(
            2,
            disj(ident("q"), ident("r")),
            Justification::OrIntroduction1(1),
        ),
    ];
    let v = verify(&sq, &steps);
    assert_eq!(
        outcome_reason(&v, 2),
        Some(&VerificationError::UnprovedDependency { line: 1 })
    );
}

#[test]
fn duplicate_line_numbers_are_malformed() {
    let sq = sequent(vec![ident("p")], ident("p"));
    let steps = vec![
        line(1, ident("p"), Justification::Premise),
        line(1, ident("p"), Justification::Premise),
    ];
    assert_eq!(
        verify(&sq, &steps),
        Verdict::Malformed {
            reason: StructureError::DuplicateLine(1)
        }
    );
}

#[test]
fn empty_sub_proof_is_malformed() {
    let sq = sequent(vec![ident("p")], ident("p"));
    let steps = vec![ProofStep::SubProof {
        sub_line_number: 10,
        assume_step: (1, AssumeStep::AssumeClaim(ident("p"))),
        steps: vec![],
    }];
    assert_eq!(
        verify(&sq, &steps),
        Verdict::Malformed {
            reason: StructureError::EmptySubProof(10)
        }
    );
}

#[test]
fn forward_reference_is_malformed() {
    let sq = sequent(vec![ident("p")], disj(ident("p"), ident("q")));
    let steps = vec![
        line(
            1,
            disj(ident("p"), ident("q")),
            Justification::OrIntroduction1(2),
        ),
        line(2, ident("p"), Justification::Premise),
    ];
    assert_eq!(
        verify(&sq, &steps),
        Verdict::Malformed {
            reason: StructureError::ForwardReference { at: 1, cited: 2 }
        }
    );
    assert_eq!(
        validate_proof(&steps),
        Some(StructureError::ForwardReference { at: 1, cited: 2 })
    );
}

#[test]
fn proved_steps_with_wrong_goal_disprove() {
    let sq = sequent(vec![ident("p")], ident("q"));
    let steps = vec![line(1, ident("p"), Justification::Premise)];
    let v = verify(&sq, &steps);
    assert!(matches!(v, Verdict::Disproved { .. }));
}

#[test]
fn proof_prove_delegates_to_verify() {
    let proof = Proof {
        sequent: sequent(vec![ident("p")], ident("p")),
        proof_steps: vec![line(1, ident("p"), Justification::Premise)],
    };
    assert_eq!(proof.prove(), Verdict::Proved);
}
