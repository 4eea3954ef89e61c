//! The data model of the proof checker: claims (propositional formulas),
//! sequents, proof steps, and the justifications that back them.
use vstd::prelude::*;

verus! {

pub type LineNumber = usize;

pub type SubLineNumber = usize;

pub type Ident = String;

/// A literal value carried by a `Claim`. Only `Bool` literals take part in
/// the logical rules; other literals exist so that the kind checker can
/// reject them where a `Bool` is required.
#[derive(Debug, Clone, Copy, PartialEq, Eq, Structural)]
pub enum LiteralContainer {
    Bool(bool),
    Int(i64),
}

/// A propositional formula. Binary variants own exactly two sub-claims,
/// `Negation` owns one; claims are built by the parser and never mutated.
#[derive(Debug, PartialEq)]
pub enum Claim {
    Literal(LiteralContainer),
    Identifier(Ident),
    Negation(Box<Claim>),
    Conjunction(Box<Claim>, Box<Claim>),
    Disjunction(Box<Claim>, Box<Claim>),
    Implication(Box<Claim>, Box<Claim>),
}

/// The mathematical value of a claim: the same tree with identifier names
/// as character sequences. Two claims are structurally equal exactly when
/// their values are equal: identical shape, and identical identifier names
/// and literal values at every position. No alpha-renaming.
pub enum ClaimModel {
    Literal(LiteralContainer),
    Identifier(Seq<char>),
    Negation(Box<ClaimModel>),
    Conjunction(Box<ClaimModel>, Box<ClaimModel>),
    Disjunction(Box<ClaimModel>, Box<ClaimModel>),
    Implication(Box<ClaimModel>, Box<ClaimModel>),
}

/// The value of a claim, defined by structural recursion.
pub open spec fn claim_model(c: Claim) -> ClaimModel
    decreases c,
{
    match c {
        Claim::Literal(l) => ClaimModel::Literal(l),
        Claim::Identifier(s) => ClaimModel::Identifier(s@),
        Claim::Negation(x) => ClaimModel::Negation(Box::new(claim_model(*x))),
        Claim::Conjunction(x1, x2) => ClaimModel::Conjunction(
            Box::new(claim_model(*x1)),
            Box::new(claim_model(*x2)),
        ),
        Claim::Disjunction(x1, x2) => ClaimModel::Disjunction(
            Box::new(claim_model(*x1)),
            Box::new(claim_model(*x2)),
        ),
        Claim::Implication(x1, x2) => ClaimModel::Implication(
            Box::new(claim_model(*x1)),
            Box::new(claim_model(*x2)),
        ),
    }
}

impl View for Claim {
    type V = ClaimModel;

    open spec fn view(&self) -> ClaimModel {
        claim_model(*self)
    }
}

impl Claim {
    /// Decides structural equality of two claims.
    pub fn structurally_equals(&self, other: &Claim) -> (r: bool)
        ensures
            r == (self@ == other@),
        decreases *self,
    {
        match (self, other) {
            (Claim::Literal(x), Claim::Literal(y)) => *x == *y,
            (Claim::Identifier(x), Claim::Identifier(y)) => *x == *y,
            (Claim::Negation(x), Claim::Negation(y)) => x.structurally_equals(y),
            (Claim::Conjunction(x1, x2), Claim::Conjunction(y1, y2)) => x1.structurally_equals(y1)
                && x2.structurally_equals(y2),
            (Claim::Disjunction(x1, x2), Claim::Disjunction(y1, y2)) => x1.structurally_equals(y1)
                && x2.structurally_equals(y2),
            (Claim::Implication(x1, x2), Claim::Implication(y1, y2)) => x1.structurally_equals(y1)
                && x2.structurally_equals(y2),
            _ => false,
        }
    }

    /// A deep copy that is spec-equal to the claim it copies.
    pub fn duplicate(&self) -> (r: Claim)
        ensures
            r == *self,
        decreases *self,
    {
        match self {
            Claim::Literal(l) => Claim::Literal(*l),
            Claim::Identifier(s) => Claim::Identifier(s.clone()),
            Claim::Negation(x) => Claim::Negation(Box::new(x.duplicate())),
            Claim::Conjunction(x1, x2) => Claim::Conjunction(
                Box::new(x1.duplicate()),
                Box::new(x2.duplicate()),
            ),
            Claim::Disjunction(x1, x2) => Claim::Disjunction(
                Box::new(x1.duplicate()),
                Box::new(x2.duplicate()),
            ),
            Claim::Implication(x1, x2) => Claim::Implication(
                Box::new(x1.duplicate()),
                Box::new(x2.duplicate()),
            ),
        }
    }
}

/// The kind of a claim: what sort of value it denotes. The logical rules
/// work on `Bool` claims; the model is open to further kinds.
#[derive(Debug, Clone, Copy, PartialEq, Eq, Structural)]
pub enum Kind {
    Bool,
    Int,
}

/// The part of a two-sided claim that a rule acts upon.
#[derive(Debug, Clone, Copy, PartialEq, Eq, Structural)]
pub enum ClaimPart {
    /// The first (left) part of the claim.
    First,
    /// The second (right) part of the claim.
    Second,
}

/// The inference rule backing a proof step, together with the line numbers
/// of the steps or sub-proofs it depends on.
#[derive(Debug, Clone, Copy, PartialEq, Eq, Structural)]
pub enum Justification {
    Premise,
    AndIntroduction(LineNumber, LineNumber),
    AndElimination1(LineNumber),
    AndElimination2(LineNumber),
    OrIntroduction1(LineNumber),
    OrIntroduction2(LineNumber),
    OrElimination(LineNumber, SubLineNumber, SubLineNumber),
    ImplicationIntroduction(SubLineNumber),
    ImplicationElimination(LineNumber, LineNumber),
    NegationIntroduction(SubLineNumber),
    NegationElimination(LineNumber, LineNumber),
    ContradictionElimination(LineNumber),
    ProofByContradiction(SubLineNumber),
}

/// The assumption that opens a sub-proof.
#[derive(Debug, PartialEq)]
pub enum AssumeStep {
    /// Assume that this claim holds within the sub-proof.
    AssumeClaim(Claim),
    /// Introduce a fresh name; no propositional rule can discharge it.
    AssumeFresh(Ident),
}

/// One step of a proof: either a single justified line, or a nested
/// sub-proof opened by an assumption.
#[derive(Debug, PartialEq)]
pub enum ProofStep {
    RegularStep { line_number: LineNumber, claim: Claim, just: Justification },
    SubProof {
        sub_line_number: SubLineNumber,
        assume_step: (LineNumber, AssumeStep),
        steps: Vec<ProofStep>,
    },
}

/// The premises known to hold, and the goal claim to be established.
#[derive(Debug, PartialEq)]
pub struct Sequent {
    /// The claims known to hold at the start.
    pub known: Vec<Claim>,
    /// The goal: the claim the proof must establish.
    pub to_verify: Claim,
}

/// The mathematical value of a sequent.
#[verifier::ext_equal]
pub struct SequentModel {
    pub known: Seq<ClaimModel>,
    pub to_verify: ClaimModel,
}

impl View for Sequent {
    type V = SequentModel;

    open spec fn view(&self) -> SequentModel {
        SequentModel {
            known: self.known@.map_values(|c: Claim| c@),
            to_verify: self.to_verify@,
        }
    }
}

/// A complete proof: the sequent it argues for and its ordered steps.
#[derive(Debug, PartialEq)]
pub struct Proof {
    pub sequent: Sequent,
    pub proof_steps: Vec<ProofStep>,
}

} // verus!
