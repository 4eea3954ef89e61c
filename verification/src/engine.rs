//! The rule engine: a single-pass, depth-first verifier that applies each
//! step's justification against the previously proved, visible steps.
use vstd::prelude::*;

verus! {

use crate::propositional::{
    AssumeStep,
    Claim,
    ClaimModel,
    ClaimPart,
    Justification,
    LineNumber,
    LiteralContainer,
    Proof,
    ProofStep,
    Sequent,
    SubLineNumber,
};

/// The shape a rule expected of the claims it examined.
#[derive(Debug, Clone, Copy, PartialEq, Eq, Structural)]
pub enum ShapeKind {
    /// A claim structurally equal to a sequent premise.
    PremiseMatch,
    /// A conjunction related as the rule demands.
    ConjunctionShape,
    /// A disjunction related as the rule demands.
    DisjunctionShape,
    /// An implication related as the rule demands.
    ImplicationShape,
    /// A negation related as the rule demands.
    NegationShape,
    /// The false literal.
    FalseLiteral,
}

/// Why a step could not be proved.
#[derive(Debug, PartialEq)]
pub enum VerificationError {
    /// The cited line is visible but was not proved.
    UnprovedDependency { line: LineNumber },
    /// The cited line exists nowhere in the proof.
    LineNotFound { line: LineNumber },
    /// The cited line exists but no open scope holds it.
    LineNotVisible { line: LineNumber },
    /// The claims do not fit the rule: `expected` names the shape the rule
    /// demands, `found` is the claim being justified.
    JustificationMismatch { expected: ShapeKind, found: Claim },
}

/// The outcome of one line of the proof.
#[derive(Debug, PartialEq)]
pub struct StepResult {
    pub line_number: LineNumber,
    pub proved: bool,
    pub reason: Option<VerificationError>,
}

/// A proved or failed line visible in some open scope.
#[derive(Debug)]
pub struct LineEntry {
    pub line_number: LineNumber,
    pub claim: Claim,
    pub proved: bool,
}

/// A closed sub-proof, citable as a unit: its number, what it assumed
/// (nothing, for a fresh-name assumption), what its last regular step
/// concluded, and whether every step inside it was proved.
#[derive(Debug)]
pub struct SubEntry {
    pub sub_line_number: SubLineNumber,
    pub assumed: Option<Claim>,
    pub concluded: Option<Claim>,
    pub proved: bool,
}

/// One open scope: the lines recorded in it and the sub-proofs closed
/// directly under it.
#[derive(Debug)]
pub struct Frame {
    pub lines: Vec<LineEntry>,
    pub subs: Vec<SubEntry>,
}

#[verifier::ext_equal]
pub struct FrameModel {
    pub lines: Seq<LineEntry>,
    pub subs: Seq<SubEntry>,
}

impl View for Frame {
    type V = FrameModel;

    open spec fn view(&self) -> FrameModel {
        FrameModel { lines: self.lines@, subs: self.subs@ }
    }
}

/// The engine's state: the stack of open scopes, every line number seen so
/// far (visible or not), and the outcomes in textual order.
#[derive(Debug)]
pub struct EngineState {
    pub frames: Vec<Frame>,
    pub seen: Vec<LineNumber>,
    pub results: Vec<StepResult>,
}

#[verifier::ext_equal]
pub struct StateModel {
    pub frames: Seq<FrameModel>,
    pub seen: Seq<LineNumber>,
    pub results: Seq<StepResult>,
}

impl View for EngineState {
    type V = StateModel;

    open spec fn view(&self) -> StateModel {
        StateModel {
            frames: self.frames@.map_values(|f: Frame| f@),
            seen: self.seen@,
            results: self.results@,
        }
    }
}

/// The most recent entry for line `n` in one scope.
pub open spec fn sp_find_line_in(lines: Seq<LineEntry>, n: LineNumber) -> Option<LineEntry>
    decreases lines.len(),
{
    if lines.len() == 0 {
        None
    } else if lines.last().line_number == n {
        Some(lines.last())
    } else {
        sp_find_line_in(lines.drop_last(), n)
    }
}

/// The entry for line `n` in the innermost scope that holds it.
pub open spec fn sp_find_line(frames: Seq<FrameModel>, n: LineNumber) -> Option<LineEntry>
    decreases frames.len(),
{
    if frames.len() == 0 {
        None
    } else {
        match sp_find_line_in(frames.last().lines, n) {
            Some(e) => Some(e),
            None => sp_find_line(frames.drop_last(), n),
        }
    }
}

pub open spec fn sp_find_sub_in(subs: Seq<SubEntry>, n: SubLineNumber) -> Option<SubEntry>
    decreases subs.len(),
{
    if subs.len() == 0 {
        None
    } else if subs.last().sub_line_number == n {
        Some(subs.last())
    } else {
        sp_find_sub_in(subs.drop_last(), n)
    }
}

/// The closed sub-proof numbered `n` in the innermost scope that holds it.
pub open spec fn sp_find_sub(frames: Seq<FrameModel>, n: SubLineNumber) -> Option<SubEntry>
    decreases frames.len(),
{
    if frames.len() == 0 {
        None
    } else {
        match sp_find_sub_in(frames.last().subs, n) {
            Some(e) => Some(e),
            None => sp_find_sub(frames.drop_last(), n),
        }
    }
}

/// Resolves a cited line number: its entry where a visible line is proved;
/// `UnprovedDependency` where it failed; `LineNotVisible` where the number
/// was seen but no open scope holds it as a line (a closed sub-proof's
/// internal line, or a sub-proof number cited as a line); `LineNotFound`
/// where the number exists nowhere.
pub open spec fn sp_resolve_line(st: StateModel, n: LineNumber) -> Result<
    LineEntry,
    VerificationError,
> {
    match sp_find_line(st.frames, n) {
        Some(e) => if e.proved {
            Ok(e)
        } else {
            Err(VerificationError::UnprovedDependency { line: n })
        },
        None => if st.seen.contains(n) {
            Err(VerificationError::LineNotVisible { line: n })
        } else {
            Err(VerificationError::LineNotFound { line: n })
        },
    }
}

/// Resolves a cited sub-proof number, in the same way.
pub open spec fn sp_resolve_sub(st: StateModel, n: SubLineNumber) -> Result<
    SubEntry,
    VerificationError,
> {
    match sp_find_sub(st.frames, n) {
        Some(e) => if e.proved {
            Ok(e)
        } else {
            Err(VerificationError::UnprovedDependency { line: n })
        },
        None => if st.seen.contains(n) {
            Err(VerificationError::LineNotVisible { line: n })
        } else {
            Err(VerificationError::LineNotFound { line: n })
        },
    }
}

/// The shape a rule demands, named in its mismatch error.
pub open spec fn sp_rule_shape(just: Justification) -> ShapeKind {
    match just {
        Justification::Premise => ShapeKind::PremiseMatch,
        Justification::AndIntroduction(_, _) => ShapeKind::ConjunctionShape,
        Justification::AndElimination1(_) => ShapeKind::ConjunctionShape,
        Justification::AndElimination2(_) => ShapeKind::ConjunctionShape,
        Justification::OrIntroduction1(_) => ShapeKind::DisjunctionShape,
        Justification::OrIntroduction2(_) => ShapeKind::DisjunctionShape,
        Justification::OrElimination(_, _, _) => ShapeKind::DisjunctionShape,
        Justification::ImplicationIntroduction(_) => ShapeKind::ImplicationShape,
        Justification::ImplicationElimination(_, _) => ShapeKind::ImplicationShape,
        Justification::NegationIntroduction(_) => ShapeKind::NegationShape,
        Justification::NegationElimination(_, _) => ShapeKind::NegationShape,
        Justification::ContradictionElimination(_) => ShapeKind::FalseLiteral,
        Justification::ProofByContradiction(_) => ShapeKind::NegationShape,
    }
}

/// The false literal, the claim that contradiction rules look for.
pub open spec fn sp_false_claim(c: ClaimModel) -> bool {
    c == ClaimModel::Literal(LiteralContainer::Bool(false))
}

/// The conjunct or disjunct a `ClaimPart` picks.
pub open spec fn sp_part_of(part: ClaimPart, l: ClaimModel, r: ClaimModel) -> ClaimModel {
    match part {
        ClaimPart::First => l,
        ClaimPart::Second => r,
    }
}

/// Whether the claims fit the rule, the referenced entries already
/// resolved. This is the rule table itself.
pub open spec fn sp_rule_fits(
    premises: Seq<Claim>,
    st: StateModel,
    claim: Claim,
    just: Justification,
) -> bool {
    match just {
        Justification::Premise => exists|k: int|
            0 <= k < premises.len() && premises[k]@ == claim@,
        Justification::AndIntroduction(i, j) => {
            &&& sp_resolve_line(st, i) matches Ok(ei)
            &&& sp_resolve_line(st, j) matches Ok(ej)
            &&& claim@ matches ClaimModel::Conjunction(l, r)
            &&& *l == ei.claim@
            &&& *r == ej.claim@
        },
        Justification::AndElimination1(i) => {
            &&& sp_resolve_line(st, i) matches Ok(ei)
            &&& ei.claim@ matches ClaimModel::Conjunction(a, b)
            &&& claim@ == sp_part_of(ClaimPart::First, *a, *b)
        },
        Justification::AndElimination2(i) => {
            &&& sp_resolve_line(st, i) matches Ok(ei)
            &&& ei.claim@ matches ClaimModel::Conjunction(a, b)
            &&& claim@ == sp_part_of(ClaimPart::Second, *a, *b)
        },
        Justification::OrIntroduction1(i) => {
            &&& sp_resolve_line(st, i) matches Ok(ei)
            &&& claim@ matches ClaimModel::Disjunction(l, r)
            &&& sp_part_of(ClaimPart::First, *l, *r) == ei.claim@
        },
        Justification::OrIntroduction2(i) => {
            &&& sp_resolve_line(st, i) matches Ok(ei)
            &&& claim@ matches ClaimModel::Disjunction(l, r)
            &&& sp_part_of(ClaimPart::Second, *l, *r) == ei.claim@
        },
        Justification::OrElimination(i, sj, sk) => {
            &&& sp_resolve_line(st, i) matches Ok(ei)
            &&& ei.claim@ matches ClaimModel::Disjunction(a, b)
            &&& sp_resolve_sub(st, sj) matches Ok(esj)
            &&& esj.assumed matches Some(aj)
            &&& aj@ == *a
            &&& esj.concluded matches Some(xj)
            &&& sp_resolve_sub(st, sk) matches Ok(esk)
            &&& esk.assumed matches Some(bk)
            &&& bk@ == *b
            &&& esk.concluded matches Some(xk)
            &&& xj@ == xk@
            &&& claim@ == xj@
        },
        Justification::ImplicationIntroduction(si) => {
            &&& sp_resolve_sub(st, si) matches Ok(es)
            &&& es.assumed matches Some(a)
            &&& es.concluded matches Some(b)
            &&& claim@ == ClaimModel::Implication(Box::new(a@), Box::new(b@))
        },
        Justification::ImplicationElimination(i, j) => {
            &&& sp_resolve_line(st, i) matches Ok(ei)
            &&& sp_resolve_line(st, j) matches Ok(ej)
            &&& ej.claim@ matches ClaimModel::Implication(a, b)
            &&& ei.claim@ == *a
            &&& claim@ == *b
        },
        Justification::NegationIntroduction(si) => {
            &&& sp_resolve_sub(st, si) matches Ok(es)
            &&& es.assumed matches Some(a)
            &&& es.concluded matches Some(f)
            &&& sp_false_claim(f@)
            &&& claim@ == ClaimModel::Negation(Box::new(a@))
        },
        Justification::NegationElimination(i, j) => {
            &&& sp_resolve_line(st, i) matches Ok(ei)
            &&& ei.claim@ matches ClaimModel::Negation(a)
            &&& sp_resolve_line(st, j) matches Ok(ej)
            &&& ej.claim@ == *a
            &&& sp_false_claim(claim@)
        },
        Justification::ContradictionElimination(i) => {
            &&& sp_resolve_line(st, i) matches Ok(ei)
            &&& sp_false_claim(ei.claim@)
        },
        Justification::ProofByContradiction(si) => {
            &&& sp_resolve_sub(st, si) matches Ok(es)
            &&& es.assumed matches Some(a)
            &&& a@ == ClaimModel::Negation(Box::new(claim@))
            &&& es.concluded matches Some(f)
            &&& sp_false_claim(f@)
        },
    }
}

/// The first resolution error a rule's references meet, checked in the
/// order the justification lists them.
pub open spec fn sp_rule_ref_error(st: StateModel, just: Justification) -> Option<
    VerificationError,
> {
    match just {
        Justification::Premise => None,
        Justification::AndIntroduction(i, j) => sp_two_lines(st, i, j),
        Justification::AndElimination1(i) => sp_one_line(st, i),
        Justification::AndElimination2(i) => sp_one_line(st, i),
        Justification::OrIntroduction1(i) => sp_one_line(st, i),
        Justification::OrIntroduction2(i) => sp_one_line(st, i),
        Justification::OrElimination(i, sj, sk) => match sp_resolve_line(st, i) {
            Err(e) => Some(e),
            Ok(_) => match sp_resolve_sub(st, sj) {
                Err(e) => Some(e),
                Ok(_) => match sp_resolve_sub(st, sk) {
                    Err(e) => Some(e),
                    Ok(_) => None,
                },
            },
        },
        Justification::ImplicationIntroduction(si) => sp_one_sub(st, si),
        Justification::ImplicationElimination(i, j) => sp_two_lines(st, i, j),
        Justification::NegationIntroduction(si) => sp_one_sub(st, si),
        Justification::NegationElimination(i, j) => sp_two_lines(st, i, j),
        Justification::ContradictionElimination(i) => sp_one_line(st, i),
        Justification::ProofByContradiction(si) => sp_one_sub(st, si),
    }
}

pub open spec fn sp_one_line(st: StateModel, i: LineNumber) -> Option<VerificationError> {
    match sp_resolve_line(st, i) {
        Err(e) => Some(e),
        Ok(_) => None,
    }
}

pub open spec fn sp_two_lines(st: StateModel, i: LineNumber, j: LineNumber) -> Option<
    VerificationError,
> {
    match sp_resolve_line(st, i) {
        Err(e) => Some(e),
        Ok(_) => match sp_resolve_line(st, j) {
            Err(e) => Some(e),
            Ok(_) => None,
        },
    }
}

pub open spec fn sp_one_sub(st: StateModel, si: SubLineNumber) -> Option<VerificationError> {
    match sp_resolve_sub(st, si) {
        Err(e) => Some(e),
        Ok(_) => None,
    }
}

/// What checking one justification yields: the first resolution error, a
/// mismatch naming the rule's shape where the claims do not fit, or
/// nothing where the step is proved.
pub open spec fn sp_apply_rule(
    premises: Seq<Claim>,
    st: StateModel,
    claim: Claim,
    just: Justification,
) -> Option<VerificationError> {
    match sp_rule_ref_error(st, just) {
        Some(e) => Some(e),
        None => if sp_rule_fits(premises, st, claim, just) {
            None
        } else {
            Some(
                VerificationError::JustificationMismatch {
                    expected: sp_rule_shape(just),
                    found: claim,
                },
            )
        },
    }
}

} // verus!

verus! {

/// Records a line in the innermost scope: its entry, its number as seen,
/// and its outcome.
pub open spec fn sp_push_line(
    st: StateModel,
    n: LineNumber,
    claim: Claim,
    proved: bool,
    reason: Option<VerificationError>,
) -> StateModel {
    let seen = st.seen.push(n);
    let results = st.results.push(StepResult { line_number: n, proved, reason });
    if st.frames.len() > 0 {
        let top = st.frames.last();
        let top2 = FrameModel {
            lines: top.lines.push(LineEntry { line_number: n, claim, proved }),
            subs: top.subs,
        };
        StateModel { frames: st.frames.update(st.frames.len() - 1, top2), seen, results }
    } else {
        StateModel { frames: st.frames, seen, results }
    }
}

/// Records a line's number and outcome without a citable claim (a
/// fresh-name assumption).
pub open spec fn sp_mark_line(
    st: StateModel,
    n: LineNumber,
    proved: bool,
    reason: Option<VerificationError>,
) -> StateModel {
    StateModel {
        frames: st.frames,
        seen: st.seen.push(n),
        results: st.results.push(StepResult { line_number: n, proved, reason }),
    }
}

/// Records a closed sub-proof as a citable unit of the innermost scope.
pub open spec fn sp_push_sub(st: StateModel, e: SubEntry) -> StateModel {
    if st.frames.len() > 0 {
        let top = st.frames.last();
        let top2 = FrameModel { lines: top.lines, subs: top.subs.push(e) };
        StateModel {
            frames: st.frames.update(st.frames.len() - 1, top2),
            seen: st.seen,
            results: st.results,
        }
    } else {
        st
    }
}

/// Every outcome from `start` on is proved.
pub open spec fn sp_results_proved_from(rs: Seq<StepResult>, start: int) -> bool {
    forall|k: int| start <= k < rs.len() ==> rs[k].proved
}

/// What processing one step does to the state. A regular step is checked
/// by its rule and recorded. A sub-proof opens a scope, records its
/// assumption, processes its steps depth-first, then closes the scope and
/// becomes one citable unit: assumption, last regular claim, and whether
/// everything inside was proved.
pub open spec fn sp_step(premises: Seq<Claim>, step: ProofStep, st: StateModel) -> StateModel
    decreases step,
{
    match step {
        ProofStep::RegularStep { line_number, claim, just } => {
            let reason = sp_apply_rule(premises, st, claim, just);
            sp_push_line(st, line_number, claim, reason is None, reason)
        },
        ProofStep::SubProof { sub_line_number, assume_step, steps } => {
            let st1 = StateModel {
                frames: st.frames.push(FrameModel { lines: Seq::empty(), subs: Seq::empty() }),
                seen: st.seen.push(sub_line_number),
                results: st.results,
            };
            let start = st1.results.len() as int;
            let al = assume_step.0;
            let assumed = match assume_step.1 {
                AssumeStep::AssumeClaim(c) => Some(c),
                AssumeStep::AssumeFresh(_) => None,
            };
            let st2 = match assumed {
                Some(c) => sp_push_line(st1, al, c, true, None),
                None => sp_mark_line(st1, al, true, None),
            };
            let st3 = sp_process(premises, steps@, st2);
            let all_ok = sp_results_proved_from(st3.results, start);
            let concluded = if steps@.len() > 0 {
                match steps@.last() {
                    ProofStep::RegularStep { claim, .. } => Some(claim),
                    _ => None,
                }
            } else {
                None
            };
            let popped = if st3.frames.len() > 0 {
                st3.frames.drop_last()
            } else {
                st3.frames
            };
            sp_push_sub(
                StateModel { frames: popped, seen: st3.seen, results: st3.results },
                SubEntry { sub_line_number, assumed, concluded, proved: all_ok },
            )
        },
    }
}

/// Processing a step sequence folds `sp_step` over it in textual order.
pub open spec fn sp_process(premises: Seq<Claim>, steps: Seq<ProofStep>, st: StateModel) -> StateModel
    decreases steps,
{
    if steps.len() == 0 {
        st
    } else {
        sp_step(premises, steps.last(), sp_process(premises, steps.drop_last(), st))
    }
}

/// The state a verification run starts from: one open scope, nothing seen,
/// no outcomes.
pub open spec fn sp_initial_state() -> StateModel {
    StateModel {
        frames: seq![FrameModel { lines: Seq::empty(), subs: Seq::empty() }],
        seen: Seq::empty(),
        results: Seq::empty(),
    }
}

/// The engine's final state over a whole proof.
pub open spec fn sp_run(premises: Seq<Claim>, steps: Seq<ProofStep>) -> StateModel {
    sp_process(premises, steps, sp_initial_state())
}

pub open spec fn sp_all_proved(rs: Seq<StepResult>) -> bool {
    forall|k: int| 0 <= k < rs.len() ==> rs[k].proved
}

/// The final top-level step is a regular step whose claim is the goal.
pub open spec fn sp_goal_met(goal: Claim, steps: Seq<ProofStep>) -> bool {
    &&& steps.len() > 0
    &&& steps.last() matches ProofStep::RegularStep { claim, .. }
    &&& claim@ == goal@
}

/// The whole proof is proved: every step everywhere is proved, and the
/// final top-level step concludes the goal.
pub open spec fn sp_verdict_proved(premises: Seq<Claim>, goal: Claim, steps: Seq<ProofStep>) -> bool {
    sp_all_proved(sp_run(premises, steps).results) && sp_goal_met(goal, steps)
}

fn claim_in_premises(premises: &Vec<Claim>, claim: &Claim) -> (r: bool)
    ensures
        r == exists|k: int| 0 <= k < premises@.len() && premises@[k]@ == claim@,
{
    let mut i: usize = 0;
    while i < premises.len()
        invariant
            i <= premises@.len(),
            forall|k: int| 0 <= k < i ==> premises@[k]@ != claim@,
        decreases premises@.len() - i,
    {
        if premises[i].structurally_equals(claim) {
            return true;
        }
        i = i + 1;
    }
    false
}

fn seen_contains(seen: &Vec<LineNumber>, n: LineNumber) -> (r: bool)
    ensures
        r == seen@.contains(n),
{
    let mut i: usize = 0;
    while i < seen.len()
        invariant
            i <= seen@.len(),
            forall|k: int| 0 <= k < i ==> seen@[k] != n,
        decreases seen@.len() - i,
    {
        if seen[i] == n {
            return true;
        }
        i = i + 1;
    }
    false
}

impl LineEntry {
    fn duplicate(&self) -> (r: LineEntry)
        ensures
            r == *self,
    {
        LineEntry {
            line_number: self.line_number,
            claim: self.claim.duplicate(),
            proved: self.proved,
        }
    }
}

impl SubEntry {
    fn duplicate(&self) -> (r: SubEntry)
        ensures
            r == *self,
    {
        SubEntry {
            sub_line_number: self.sub_line_number,
            assumed: match &self.assumed {
                Some(c) => Some(c.duplicate()),
                None => None,
            },
            concluded: match &self.concluded {
                Some(c) => Some(c.duplicate()),
                None => None,
            },
            proved: self.proved,
        }
    }
}

fn find_line_in(lines: &Vec<LineEntry>, k: usize, n: LineNumber) -> (r: Option<LineEntry>)
    requires
        k <= lines@.len(),
    ensures
        r == sp_find_line_in(lines@.take(k as int), n),
    decreases k,
{
    if k == 0 {
        proof {
            assert(lines@.take(0) =~= Seq::<LineEntry>::empty());
        }
        None
    } else {
        let e = &lines[k - 1];
        proof {
            assert(lines@.take(k as int).last() == lines@[k - 1]);
            assert(lines@.take(k as int).drop_last() =~= lines@.take(k - 1));
        }
        if e.line_number == n {
            Some(e.duplicate())
        } else {
            find_line_in(lines, k - 1, n)
        }
    }
}

fn find_sub_in(subs: &Vec<SubEntry>, k: usize, n: SubLineNumber) -> (r: Option<SubEntry>)
    requires
        k <= subs@.len(),
    ensures
        r == sp_find_sub_in(subs@.take(k as int), n),
    decreases k,
{
    if k == 0 {
        proof {
            assert(subs@.take(0) =~= Seq::<SubEntry>::empty());
        }
        None
    } else {
        let e = &subs[k - 1];
        proof {
            assert(subs@.take(k as int).last() == subs@[k - 1]);
            assert(subs@.take(k as int).drop_last() =~= subs@.take(k - 1));
        }
        if e.sub_line_number == n {
            Some(e.duplicate())
        } else {
            find_sub_in(subs, k - 1, n)
        }
    }
}

fn find_line(frames: &Vec<Frame>, k: usize, n: LineNumber) -> (r: Option<LineEntry>)
    requires
        k <= frames@.len(),
    ensures
        r == sp_find_line(frames@.map_values(|f: Frame| f@).take(k as int), n),
    decreases k,
{
    let ghost fs = frames@.map_values(|f: Frame| f@);
    if k == 0 {
        proof {
            assert(fs.take(0) =~= Seq::<FrameModel>::empty());
        }
        None
    } else {
        let fr = &frames[k - 1];
        proof {
            assert(fs.take(k as int).last() == fr@);
            assert(fs.take(k as int).drop_last() =~= fs.take(k - 1));
            assert(fr@.lines.take(fr@.lines.len() as int) =~= fr@.lines);
        }
        match find_line_in(&fr.lines, fr.lines.len(), n) {
            Some(e) => Some(e),
            None => find_line(frames, k - 1, n),
        }
    }
}

fn find_sub(frames: &Vec<Frame>, k: usize, n: SubLineNumber) -> (r: Option<SubEntry>)
    requires
        k <= frames@.len(),
    ensures
        r == sp_find_sub(frames@.map_values(|f: Frame| f@).take(k as int), n),
    decreases k,
{
    let ghost fs = frames@.map_values(|f: Frame| f@);
    if k == 0 {
        proof {
            assert(fs.take(0) =~= Seq::<FrameModel>::empty());
        }
        None
    } else {
        let fr = &frames[k - 1];
        proof {
            assert(fs.take(k as int).last() == fr@);
            assert(fs.take(k as int).drop_last() =~= fs.take(k - 1));
            assert(fr@.subs.take(fr@.subs.len() as int) =~= fr@.subs);
        }
        match find_sub_in(&fr.subs, fr.subs.len(), n) {
            Some(e) => Some(e),
            None => find_sub(frames, k - 1, n),
        }
    }
}

fn resolve_line(st: &EngineState, n: LineNumber) -> (r: Result<LineEntry, VerificationError>)
    ensures
        r == sp_resolve_line(st@, n),
{
    proof {
        assert(st@.frames.take(st@.frames.len() as int) =~= st@.frames);
    }
    match find_line(&st.frames, st.frames.len(), n) {
        Some(e) => {
            if e.proved {
                Ok(e)
            } else {
                Err(VerificationError::UnprovedDependency { line: n })
            }
        },
        None => {
            if seen_contains(&st.seen, n) {
                Err(VerificationError::LineNotVisible { line: n })
            } else {
                Err(VerificationError::LineNotFound { line: n })
            }
        },
    }
}

fn resolve_sub(st: &EngineState, n: SubLineNumber) -> (r: Result<SubEntry, VerificationError>)
    ensures
        r == sp_resolve_sub(st@, n),
{
    proof {
        assert(st@.frames.take(st@.frames.len() as int) =~= st@.frames);
    }
    match find_sub(&st.frames, st.frames.len(), n) {
        Some(e) => {
            if e.proved {
                Ok(e)
            } else {
                Err(VerificationError::UnprovedDependency { line: n })
            }
        },
        None => {
            if seen_contains(&st.seen, n) {
                Err(VerificationError::LineNotVisible { line: n })
            } else {
                Err(VerificationError::LineNotFound { line: n })
            }
        },
    }
}

fn is_false_claim(c: &Claim) -> (r: bool)
    ensures
        r == sp_false_claim(c@),
{
    match c {
        Claim::Literal(LiteralContainer::Bool(b)) => !*b,
        _ => false,
    }
}

} // verus!

verus! {

/// The overall outcome of a verification run.
#[derive(Debug, PartialEq)]
pub enum Verdict {
    /// Every step is proved and the final top-level step concludes the
    /// goal.
    Proved,
    /// Some step is unproved, or the final step misses the goal; the
    /// per-step outcomes say which and why.
    Disproved { outcomes: Vec<StepResult> },
    /// A structural invariant fails; verification never started.
    Malformed { reason: StructureError },
}

/// A violated structural invariant, found before verification starts.
#[derive(Debug, Clone, Copy, PartialEq, Eq, Structural)]
pub enum StructureError {
    /// Two steps carry this line number.
    DuplicateLine(LineNumber),
    /// This sub-proof holds no step beyond its assumption.
    EmptySubProof(SubLineNumber),
    /// The step at `at` cites `cited`, which only appears at or after it.
    ForwardReference { at: LineNumber, cited: LineNumber },
}

fn rule_shape(just: &Justification) -> (r: ShapeKind)
    ensures
        r == sp_rule_shape(*just),
{
    match just {
        Justification::Premise => ShapeKind::PremiseMatch,
        Justification::AndIntroduction(_, _) => ShapeKind::ConjunctionShape,
        Justification::AndElimination1(_) => ShapeKind::ConjunctionShape,
        Justification::AndElimination2(_) => ShapeKind::ConjunctionShape,
        Justification::OrIntroduction1(_) => ShapeKind::DisjunctionShape,
        Justification::OrIntroduction2(_) => ShapeKind::DisjunctionShape,
        Justification::OrElimination(_, _, _) => ShapeKind::DisjunctionShape,
        Justification::ImplicationIntroduction(_) => ShapeKind::ImplicationShape,
        Justification::ImplicationElimination(_, _) => ShapeKind::ImplicationShape,
        Justification::NegationIntroduction(_) => ShapeKind::NegationShape,
        Justification::NegationElimination(_, _) => ShapeKind::NegationShape,
        Justification::ContradictionElimination(_) => ShapeKind::FalseLiteral,
        Justification::ProofByContradiction(_) => ShapeKind::NegationShape,
    }
}

/// The conjunct or disjunct a `ClaimPart` picks.
fn picked<'a>(part: ClaimPart, l: &'a Claim, r: &'a Claim) -> (c: &'a Claim)
    ensures
        c@ == sp_part_of(part, l@, r@),
{
    match part {
        ClaimPart::First => l,
        ClaimPart::Second => r,
    }
}

/// Checks one justification against the current state: the first
/// resolution error, a mismatch, or nothing where the step is proved.
fn apply_rule(premises: &Vec<Claim>, st: &EngineState, claim: &Claim, just: &Justification) -> (r:
    Option<VerificationError>)
    ensures
        r == sp_apply_rule(premises@, st@, *claim, *just),
{
    let fits: bool = match just {
        Justification::Premise => claim_in_premises(premises, claim),
        Justification::AndIntroduction(i, j) => {
            let ei = match resolve_line(st, *i) {
                Ok(e) => e,
                Err(e) => {
                    return Some(e);
                },
            };
            let ej = match resolve_line(st, *j) {
                Ok(e) => e,
                Err(e) => {
                    return Some(e);
                },
            };
            match claim {
                Claim::Conjunction(l, r2) => l.structurally_equals(&ei.claim)
                    && r2.structurally_equals(&ej.claim),
                _ => false,
            }
        },
        Justification::AndElimination1(i) => {
            let ei = match resolve_line(st, *i) {
                Ok(e) => e,
                Err(e) => {
                    return Some(e);
                },
            };
            match &ei.claim {
                Claim::Conjunction(a, b) => claim.structurally_equals(
                    picked(ClaimPart::First, a, b),
                ),
                _ => false,
            }
        },
        Justification::AndElimination2(i) => {
            let ei = match resolve_line(st, *i) {
                Ok(e) => e,
                Err(e) => {
                    return Some(e);
                },
            };
            match &ei.claim {
                Claim::Conjunction(a, b) => claim.structurally_equals(
                    picked(ClaimPart::Second, a, b),
                ),
                _ => false,
            }
        },
        Justification::OrIntroduction1(i) => {
            let ei = match resolve_line(st, *i) {
                Ok(e) => e,
                Err(e) => {
                    return Some(e);
                },
            };
            match claim {
                Claim::Disjunction(l, r2) => picked(ClaimPart::First, l, r2).structurally_equals(
                    &ei.claim,
                ),
                _ => false,
            }
        },
        Justification::OrIntroduction2(i) => {
            let ei = match resolve_line(st, *i) {
                Ok(e) => e,
                Err(e) => {
                    return Some(e);
                },
            };
            match claim {
                Claim::Disjunction(l, r2) => picked(ClaimPart::Second, l, r2).structurally_equals(
                    &ei.claim,
                ),
                _ => false,
            }
        },
        Justification::OrElimination(i, sj, sk) => {
            let ei = match resolve_line(st, *i) {
                Ok(e) => e,
                Err(e) => {
                    return Some(e);
                },
            };
            let esj = match resolve_sub(st, *sj) {
                Ok(e) => e,
                Err(e) => {
                    return Some(e);
                },
            };
            let esk = match resolve_sub(st, *sk) {
                Ok(e) => e,
                Err(e) => {
                    return Some(e);
                },
            };
            match &ei.claim {
                Claim::Disjunction(a, b) => {
                    match (&esj.assumed, &esj.concluded, &esk.assumed, &esk.concluded) {
                        (Some(aj), Some(xj), Some(bk), Some(xk)) => aj.structurally_equals(a)
                            && bk.structurally_equals(b) && xj.structurally_equals(xk)
                            && claim.structurally_equals(xj),
                        _ => false,
                    }
                },
                _ => false,
            }
        },
        Justification::ImplicationIntroduction(si) => {
            let es = match resolve_sub(st, *si) {
                Ok(e) => e,
                Err(e) => {
                    return Some(e);
                },
            };
            match (&es.assumed, &es.concluded) {
                (Some(a), Some(b)) => match claim {
                    Claim::Implication(l, r2) => l.structurally_equals(a)
                        && r2.structurally_equals(b),
                    _ => false,
                },
                _ => false,
            }
        },
        Justification::ImplicationElimination(i, j) => {
            let ei = match resolve_line(st, *i) {
                Ok(e) => e,
                Err(e) => {
                    return Some(e);
                },
            };
            let ej = match resolve_line(st, *j) {
                Ok(e) => e,
                Err(e) => {
                    return Some(e);
                },
            };
            match &ej.claim {
                Claim::Implication(a, b) => ei.claim.structurally_equals(a)
                    && claim.structurally_equals(b),
                _ => false,
            }
        },
        Justification::NegationIntroduction(si) => {
            let es = match resolve_sub(st, *si) {
                Ok(e) => e,
                Err(e) => {
                    return Some(e);
                },
            };
            match (&es.assumed, &es.concluded) {
                (Some(a), Some(f)) => is_false_claim(f) && match claim {
                    Claim::Negation(x) => x.structurally_equals(a),
                    _ => false,
                },
                _ => false,
            }
        },
        Justification::NegationElimination(i, j) => {
            let ei = match resolve_line(st, *i) {
                Ok(e) => e,
                Err(e) => {
                    return Some(e);
                },
            };
            let ej = match resolve_line(st, *j) {
                Ok(e) => e,
                Err(e) => {
                    return Some(e);
                },
            };
            match &ei.claim {
                Claim::Negation(a) => ej.claim.structurally_equals(a) && is_false_claim(claim),
                _ => false,
            }
        },
        Justification::ContradictionElimination(i) => {
            let ei = match resolve_line(st, *i) {
                Ok(e) => e,
                Err(e) => {
                    return Some(e);
                },
            };
            is_false_claim(&ei.claim)
        },
        Justification::ProofByContradiction(si) => {
            let es = match resolve_sub(st, *si) {
                Ok(e) => e,
                Err(e) => {
                    return Some(e);
                },
            };
            match (&es.assumed, &es.concluded) {
                (Some(a), Some(f)) => is_false_claim(f) && match a {
                    Claim::Negation(x) => x.structurally_equals(claim),
                    _ => false,
                },
                _ => false,
            }
        },
    };
    if fits {
        None
    } else {
        Some(
            VerificationError::JustificationMismatch {
                expected: rule_shape(just),
                found: claim.duplicate(),
            },
        )
    }
}

} // verus!

verus! {

fn push_line(
    st: &mut EngineState,
    n: LineNumber,
    claim: Claim,
    proved: bool,
    reason: Option<VerificationError>,
)
    ensures
        final (st)@ == sp_push_line(old(st)@, n, claim, proved, reason),
{
    let ghost st0 = st@;
    st.seen.push(n);
    st.results.push(StepResult { line_number: n, proved, reason });
    if st.frames.len() > 0 {
        let mut top = match st.frames.pop() {
            Some(f) => f,
            None => {
                proof {
                    assert(false);
                }
                Frame { lines: Vec::new(), subs: Vec::new() }
            },
        };
        top.lines.push(LineEntry { line_number: n, claim, proved });
        st.frames.push(top);
        proof {
            assert(st@.frames =~= sp_push_line(st0, n, claim, proved, reason).frames);
            assert(st@ =~= sp_push_line(st0, n, claim, proved, reason));
        }
    }
}

fn mark_line(st: &mut EngineState, n: LineNumber, proved: bool, reason: Option<VerificationError>)
    ensures
        final (st)@ == sp_mark_line(old(st)@, n, proved, reason),
{
    let ghost st0 = st@;
    st.seen.push(n);
    st.results.push(StepResult { line_number: n, proved, reason });
    proof {
        assert(st@ =~= sp_mark_line(st0, n, proved, reason));
    }
}

fn push_sub(st: &mut EngineState, e: SubEntry)
    ensures
        final (st)@ == sp_push_sub(old(st)@, e),
{
    let ghost st0 = st@;
    if st.frames.len() > 0 {
        let mut top = match st.frames.pop() {
            Some(f) => f,
            None => {
                proof {
                    assert(false);
                }
                Frame { lines: Vec::new(), subs: Vec::new() }
            },
        };
        top.subs.push(e);
        st.frames.push(top);
        proof {
            assert(st@.frames =~= sp_push_sub(st0, e).frames);
            assert(st@ =~= sp_push_sub(st0, e));
        }
    }
}

fn all_proved_from(results: &Vec<StepResult>, start: usize) -> (r: bool)
    ensures
        r == sp_results_proved_from(results@, start as int),
{
    let mut i: usize = start;
    if i > results.len() {
        return true;
    }
    while i < results.len()
        invariant
            start <= i <= results@.len(),
            forall|k: int| start <= k < i ==> results@[k].proved,
        decreases results@.len() - i,
    {
        if !results[i].proved {
            return false;
        }
        i = i + 1;
    }
    true
}

/// Processes one step depth-first, as `sp_step` describes.
fn check_step(premises: &Vec<Claim>, step: &ProofStep, st: &mut EngineState)
    ensures
        final (st)@ == sp_step(premises@, *step, old(st)@),
    decreases *step,
{
    match step {
        ProofStep::RegularStep { line_number, claim, just } => {
            let reason = apply_rule(premises, st, claim, just);
            let proved = reason.is_none();
            push_line(st, *line_number, claim.duplicate(), proved, reason);
        },
        ProofStep::SubProof { sub_line_number, assume_step, steps } => {
            let ghost st0 = st@;
            st.frames.push(Frame { lines: Vec::new(), subs: Vec::new() });
            st.seen.push(*sub_line_number);
            proof {
                assert(st@.frames =~= st0.frames.push(
                    FrameModel { lines: Seq::empty(), subs: Seq::empty() },
                ));
                assert(st@ =~= (StateModel {
                    frames: st0.frames.push(FrameModel { lines: Seq::empty(), subs: Seq::empty() }),
                    seen: st0.seen.push(*sub_line_number),
                    results: st0.results,
                }));
            }
            let ghost st1 = st@;
            let start = st.results.len();
            let al = assume_step.0;
            match &assume_step.1 {
                AssumeStep::AssumeClaim(c) => push_line(st, al, c.duplicate(), true, None),
                AssumeStep::AssumeFresh(_) => mark_line(st, al, true, None),
            }
            let ghost st2 = st@;
            proof {
                assert(decreases_to!(*step => *steps));
                assert(decreases_to!(*steps => steps@));
            }
            let mut idx: usize = 0;
            while idx < steps.len()
                invariant
                    idx <= steps@.len(),
                    st@ == sp_process(premises@, steps@.take(idx as int), st2),
                    decreases_to!(*step => steps@),
                decreases steps@.len() - idx,
            {
                proof {
                    assert(steps@.take(idx + 1).drop_last() =~= steps@.take(idx as int));
                    assert(steps@.take(idx + 1).last() == steps@[idx as int]);
                    assert(decreases_to!(steps@ => steps@[idx as int]));
                }
                check_step(premises, &steps[idx], st);
                idx = idx + 1;
            }
            proof {
                assert(steps@.take(steps@.len() as int) =~= steps@);
            }
            let all_ok = all_proved_from(&st.results, start);
            let concluded: Option<Claim> = if steps.len() > 0 {
                match &steps[steps.len() - 1] {
                    ProofStep::RegularStep { claim, .. } => Some(claim.duplicate()),
                    _ => None,
                }
            } else {
                None
            };
            let assumed: Option<Claim> = match &assume_step.1 {
                AssumeStep::AssumeClaim(c) => Some(c.duplicate()),
                AssumeStep::AssumeFresh(_) => None,
            };
            let ghost st3 = st@;
            if st.frames.len() > 0 {
                let _ = st.frames.pop();
                proof {
                    assert(st@.frames =~= st3.frames.drop_last());
                    assert(st@ =~= (StateModel {
                        frames: st3.frames.drop_last(),
                        seen: st3.seen,
                        results: st3.results,
                    }));
                }
            }
            push_sub(
                st,
                SubEntry {
                    sub_line_number: *sub_line_number,
                    assumed,
                    concluded,
                    proved: all_ok,
                },
            );
        },
    }
}

} // verus!

verus! {

/// Every line number a step introduces, in textual order: regular lines,
/// sub-proof numbers, and assumption lines.
pub open spec fn step_numbers(step: ProofStep) -> Seq<LineNumber>
    decreases step,
{
    match step {
        ProofStep::RegularStep { line_number, .. } => seq![line_number],
        ProofStep::SubProof { sub_line_number, assume_step, steps } => seq![
            sub_line_number,
            assume_step.0,
        ] + steps_numbers(steps@),
    }
}

pub open spec fn steps_numbers(steps: Seq<ProofStep>) -> Seq<LineNumber>
    decreases steps,
{
    if steps.len() == 0 {
        Seq::<LineNumber>::empty()
    } else {
        steps_numbers(steps.drop_last()) + step_numbers(steps.last())
    }
}

/// The first number that repeats an earlier one, in textual order.
pub open spec fn sp_first_dup_from(ns: Seq<LineNumber>, i: int) -> Option<LineNumber>
    decreases ns.len() - i,
{
    if i < 0 || i >= ns.len() {
        None
    } else if ns.take(i).contains(ns[i]) {
        Some(ns[i])
    } else {
        sp_first_dup_from(ns, i + 1)
    }
}

/// The first sub-proof, depth-first, that holds no step beyond its
/// assumption.
pub open spec fn sp_empty_sub_step(step: ProofStep) -> Option<SubLineNumber>
    decreases step,
{
    match step {
        ProofStep::RegularStep { .. } => None,
        ProofStep::SubProof { sub_line_number, assume_step, steps } => if steps@.len() == 0 {
            Some(sub_line_number)
        } else {
            sp_empty_sub_seq(steps@)
        },
    }
}

pub open spec fn sp_empty_sub_seq(steps: Seq<ProofStep>) -> Option<SubLineNumber>
    decreases steps,
{
    if steps.len() == 0 {
        None
    } else {
        match sp_empty_sub_step(steps.first()) {
            Some(n) => Some(n),
            None => sp_empty_sub_seq(steps.drop_first()),
        }
    }
}

/// The line numbers a justification cites, in the order it lists them.
pub open spec fn just_refs(just: Justification) -> Seq<LineNumber> {
    match just {
        Justification::Premise => Seq::<LineNumber>::empty(),
        Justification::AndIntroduction(i, j) => seq![i, j],
        Justification::AndElimination1(i) => seq![i],
        Justification::AndElimination2(i) => seq![i],
        Justification::OrIntroduction1(i) => seq![i],
        Justification::OrIntroduction2(i) => seq![i],
        Justification::OrElimination(i, sj, sk) => seq![i, sj, sk],
        Justification::ImplicationIntroduction(si) => seq![si],
        Justification::ImplicationElimination(i, j) => seq![i, j],
        Justification::NegationIntroduction(si) => seq![si],
        Justification::NegationElimination(i, j) => seq![i, j],
        Justification::ContradictionElimination(i) => seq![i],
        Justification::ProofByContradiction(si) => seq![si],
    }
}

/// The first cited number that exists in the proof but has not yet
/// appeared: such a reference points forward (or at the step itself), and
/// admits a reference cycle.
pub open spec fn sp_first_bad_ref(
    refs: Seq<LineNumber>,
    all: Seq<LineNumber>,
    before: Seq<LineNumber>,
) -> Option<LineNumber>
    decreases refs.len(),
{
    if refs.len() == 0 {
        None
    } else if all.contains(refs.first()) && !before.contains(refs.first()) {
        Some(refs.first())
    } else {
        sp_first_bad_ref(refs.drop_first(), all, before)
    }
}

/// Walks one step in textual order, extending the set of numbers already
/// appeared, or yields the first forward reference.
pub open spec fn sp_fwd_step(step: ProofStep, all: Seq<LineNumber>, before: Seq<LineNumber>) -> Result<
    Seq<LineNumber>,
    StructureError,
>
    decreases step,
{
    match step {
        ProofStep::RegularStep { line_number, claim, just } => match sp_first_bad_ref(
            just_refs(just),
            all,
            before,
        ) {
            Some(rn) => Err(StructureError::ForwardReference { at: line_number, cited: rn }),
            None => Ok(before.push(line_number)),
        },
        ProofStep::SubProof { sub_line_number, assume_step, steps } => sp_fwd_seq(
            steps@,
            all,
            before.push(sub_line_number).push(assume_step.0),
        ),
    }
}

pub open spec fn sp_fwd_seq(
    steps: Seq<ProofStep>,
    all: Seq<LineNumber>,
    before: Seq<LineNumber>,
) -> Result<Seq<LineNumber>, StructureError>
    decreases steps,
{
    if steps.len() == 0 {
        Ok(before)
    } else {
        match sp_fwd_step(steps.first(), all, before) {
            Ok(b) => sp_fwd_seq(steps.drop_first(), all, b),
            Err(e) => Err(e),
        }
    }
}

/// The first structural violation of a proof, if any: a duplicate line
/// number, then a sub-proof with no step beyond its assumption, then a
/// forward (or cyclic) reference.
pub open spec fn sp_structure_error(steps: Seq<ProofStep>) -> Option<StructureError> {
    match sp_first_dup_from(steps_numbers(steps), 0) {
        Some(n) => Some(StructureError::DuplicateLine(n)),
        None => match sp_empty_sub_seq(steps) {
            Some(n) => Some(StructureError::EmptySubProof(n)),
            None => match sp_fwd_seq(steps, steps_numbers(steps), Seq::<LineNumber>::empty()) {
                Err(e) => Some(e),
                Ok(_) => None,
            },
        },
    }
}

fn collect_step_numbers(step: &ProofStep, out: &mut Vec<LineNumber>)
    ensures
        final (out)@ == old(out)@ + step_numbers(*step),
    decreases *step,
{
    match step {
        ProofStep::RegularStep { line_number, .. } => {
            out.push(*line_number);
            proof {
                assert(out@ =~= old(out)@ + step_numbers(*step));
            }
        },
        ProofStep::SubProof { sub_line_number, assume_step, steps } => {
            out.push(*sub_line_number);
            out.push(assume_step.0);
            let ghost base = out@;
            proof {
                assert(decreases_to!(*step => *steps));
                assert(decreases_to!(*steps => steps@));
            }
            let mut idx: usize = 0;
            while idx < steps.len()
                invariant
                    idx <= steps@.len(),
                    out@ == base + steps_numbers(steps@.take(idx as int)),
                    decreases_to!(*step => steps@),
                decreases steps@.len() - idx,
            {
                proof {
                    assert(steps@.take(idx + 1).drop_last() =~= steps@.take(idx as int));
                    assert(steps@.take(idx + 1).last() == steps@[idx as int]);
                    assert(decreases_to!(steps@ => steps@[idx as int]));
                }
                collect_step_numbers(&steps[idx], out);
                proof {
                    assert(out@ =~= base + steps_numbers(steps@.take(idx + 1)));
                }
                idx = idx + 1;
            }
            proof {
                assert(steps@.take(steps@.len() as int) =~= steps@);
                assert(out@ =~= old(out)@ + step_numbers(*step));
            }
        },
    }
}

fn collect_steps_numbers(steps: &Vec<ProofStep>) -> (r: Vec<LineNumber>)
    ensures
        r@ == steps_numbers(steps@),
{
    let mut out: Vec<LineNumber> = Vec::new();
    let mut idx: usize = 0;
    while idx < steps.len()
        invariant
            idx <= steps@.len(),
            out@ == steps_numbers(steps@.take(idx as int)),
        decreases steps@.len() - idx,
    {
        proof {
            assert(steps@.take(idx + 1).drop_last() =~= steps@.take(idx as int));
            assert(steps@.take(idx + 1).last() == steps@[idx as int]);
            assert(steps_numbers(steps@.take(0)) =~= Seq::<LineNumber>::empty());
        }
        collect_step_numbers(&steps[idx], &mut out);
        idx = idx + 1;
    }
    proof {
        assert(steps@.take(steps@.len() as int) =~= steps@);
    }
    out
}

fn contains_num(ns: &Vec<LineNumber>, upto: usize, n: LineNumber) -> (r: bool)
    requires
        upto <= ns@.len(),
    ensures
        r == ns@.take(upto as int).contains(n),
{
    let mut i: usize = 0;
    while i < upto
        invariant
            i <= upto <= ns@.len(),
            forall|k: int| 0 <= k < i ==> ns@[k] != n,
        decreases upto - i,
    {
        if ns[i] == n {
            proof {
                assert(ns@.take(upto as int)[i as int] == n);
            }
            return true;
        }
        i = i + 1;
    }
    proof {
        if ns@.take(upto as int).contains(n) {
            let k = choose|k: int| 0 <= k < upto && ns@.take(upto as int)[k] == n;
            assert(ns@[k] == n);
        }
    }
    false
}

fn find_duplicate(ns: &Vec<LineNumber>) -> (r: Option<LineNumber>)
    ensures
        r == sp_first_dup_from(ns@, 0),
{
    let mut i: usize = 0;
    while i < ns.len()
        invariant
            i <= ns@.len(),
            sp_first_dup_from(ns@, 0) == sp_first_dup_from(ns@, i as int),
        decreases ns@.len() - i,
    {
        if contains_num(ns, i, ns[i]) {
            return Some(ns[i]);
        }
        i = i + 1;
    }
    None
}

fn find_empty_sub_step(step: &ProofStep) -> (r: Option<SubLineNumber>)
    ensures
        r == sp_empty_sub_step(*step),
    decreases *step,
{
    match step {
        ProofStep::RegularStep { .. } => None,
        ProofStep::SubProof { sub_line_number, assume_step, steps } => {
            if steps.len() == 0 {
                Some(*sub_line_number)
            } else {
                proof {
                    assert(decreases_to!(*step => *steps));
                    assert(decreases_to!(*steps => steps@));
                    assert(steps@.skip(0) =~= steps@);
                }
                let mut idx: usize = 0;
                loop
                    invariant
                        idx <= steps@.len(),
                        sp_empty_sub_seq(steps@.skip(idx as int)) == sp_empty_sub_seq(steps@),
                        sp_empty_sub_step(*step) == sp_empty_sub_seq(steps@),
                        decreases_to!(*step => steps@),
                    ensures
                        sp_empty_sub_step(*step) == sp_empty_sub_seq(steps@),
                        sp_empty_sub_seq(steps@) is None,
                    decreases steps@.len() - idx,
                {
                    if idx == steps.len() {
                        proof {
                            assert(steps@.skip(idx as int) =~= Seq::<ProofStep>::empty());
                        }
                        break ;
                    }
                    proof {
                        assert(steps@.skip(idx as int).first() == steps@[idx as int]);
                        assert(steps@.skip(idx as int).drop_first() =~= steps@.skip(idx + 1));
                        assert(decreases_to!(steps@ => steps@[idx as int]));
                    }
                    match find_empty_sub_step(&steps[idx]) {
                        Some(n) => {
                            return Some(n);
                        },
                        None => {},
                    }
                    idx = idx + 1;
                }
                None
            }
        },
    }
}

fn find_empty_sub(steps: &Vec<ProofStep>) -> (r: Option<SubLineNumber>)
    ensures
        r == sp_empty_sub_seq(steps@),
{
    proof {
        assert(steps@.skip(0) =~= steps@);
    }
    let mut idx: usize = 0;
    loop
        invariant
            idx <= steps@.len(),
            sp_empty_sub_seq(steps@.skip(idx as int)) == sp_empty_sub_seq(steps@),
        ensures
            sp_empty_sub_seq(steps@) is None,
        decreases steps@.len() - idx,
    {
        if idx == steps.len() {
            proof {
                assert(steps@.skip(idx as int) =~= Seq::<ProofStep>::empty());
            }
            break ;
        }
        proof {
            assert(steps@.skip(idx as int).first() == steps@[idx as int]);
            assert(steps@.skip(idx as int).drop_first() =~= steps@.skip(idx + 1));
        }
        match find_empty_sub_step(&steps[idx]) {
            Some(n) => {
                return Some(n);
            },
            None => {},
        }
        idx = idx + 1;
    }
    None
}

fn justification_refs(just: &Justification) -> (r: Vec<LineNumber>)
    ensures
        r@ == just_refs(*just),
{
    let mut v: Vec<LineNumber> = Vec::new();
    match just {
        Justification::Premise => {},
        Justification::AndIntroduction(i, j) => {
            v.push(*i);
            v.push(*j);
        },
        Justification::AndElimination1(i) => {
            v.push(*i);
        },
        Justification::AndElimination2(i) => {
            v.push(*i);
        },
        Justification::OrIntroduction1(i) => {
            v.push(*i);
        },
        Justification::OrIntroduction2(i) => {
            v.push(*i);
        },
        Justification::OrElimination(i, sj, sk) => {
            v.push(*i);
            v.push(*sj);
            v.push(*sk);
        },
        Justification::ImplicationIntroduction(si) => {
            v.push(*si);
        },
        Justification::ImplicationElimination(i, j) => {
            v.push(*i);
            v.push(*j);
        },
        Justification::NegationIntroduction(si) => {
            v.push(*si);
        },
        Justification::NegationElimination(i, j) => {
            v.push(*i);
            v.push(*j);
        },
        Justification::ContradictionElimination(i) => {
            v.push(*i);
        },
        Justification::ProofByContradiction(si) => {
            v.push(*si);
        },
    }
    proof {
        assert(v@ =~= just_refs(*just));
    }
    v
}

fn vec_contains(ns: &Vec<LineNumber>, n: LineNumber) -> (r: bool)
    ensures
        r == ns@.contains(n),
{
    let mut i: usize = 0;
    while i < ns.len()
        invariant
            i <= ns@.len(),
            forall|k: int| 0 <= k < i ==> ns@[k] != n,
        decreases ns@.len() - i,
    {
        if ns[i] == n {
            return true;
        }
        i = i + 1;
    }
    false
}

fn first_bad_ref(refs: &Vec<LineNumber>, all: &Vec<LineNumber>, before: &Vec<LineNumber>) -> (r:
    Option<LineNumber>)
    ensures
        r == sp_first_bad_ref(refs@, all@, before@),
{
    proof {
        assert(refs@.skip(0) =~= refs@);
    }
    let mut idx: usize = 0;
    loop
        invariant
            idx <= refs@.len(),
            sp_first_bad_ref(refs@.skip(idx as int), all@, before@) == sp_first_bad_ref(
                refs@,
                all@,
                before@,
            ),
        ensures
            sp_first_bad_ref(refs@, all@, before@) is None,
        decreases refs@.len() - idx,
    {
        if idx == refs.len() {
            proof {
                assert(refs@.skip(idx as int) =~= Seq::<LineNumber>::empty());
            }
            break ;
        }
        proof {
            assert(refs@.skip(idx as int).first() == refs@[idx as int]);
            assert(refs@.skip(idx as int).drop_first() =~= refs@.skip(idx + 1));
        }
        let rn = refs[idx];
        if vec_contains(all, rn) && !vec_contains(before, rn) {
            return Some(rn);
        }
        idx = idx + 1;
    }
    None
}

fn fwd_check_step(step: &ProofStep, all: &Vec<LineNumber>, before: &mut Vec<LineNumber>) -> (r:
    Option<StructureError>)
    ensures
        match r {
            None => sp_fwd_step(*step, all@, old(before)@) == Ok::<_, StructureError>(
                final (before)@,
            ),
            Some(e) => sp_fwd_step(*step, all@, old(before)@) == Err::<Seq<LineNumber>, _>(e),
        },
    decreases *step,
{
    match step {
        ProofStep::RegularStep { line_number, claim, just } => {
            let refs = justification_refs(just);
            match first_bad_ref(&refs, all, before) {
                Some(rn) => Some(
                    StructureError::ForwardReference { at: *line_number, cited: rn },
                ),
                None => {
                    before.push(*line_number);
                    None
                },
            }
        },
        ProofStep::SubProof { sub_line_number, assume_step, steps } => {
            before.push(*sub_line_number);
            before.push(assume_step.0);
            proof {
                assert(decreases_to!(*step => *steps));
                assert(decreases_to!(*steps => steps@));
            }
            let ghost b1 = before@;
            proof {
                assert(steps@.skip(0) =~= steps@);
            }
            let mut idx: usize = 0;
            loop
                invariant
                    idx <= steps@.len(),
                    sp_fwd_seq(steps@, all@, b1) == sp_fwd_seq(
                        steps@.skip(idx as int),
                        all@,
                        before@,
                    ),
                    sp_fwd_step(*step, all@, old(before)@) == sp_fwd_seq(steps@, all@, b1),
                    decreases_to!(*step => steps@),
                ensures
                    sp_fwd_step(*step, all@, old(before)@) == sp_fwd_seq(steps@, all@, b1),
                    sp_fwd_seq(steps@, all@, b1) == Ok::<_, StructureError>(before@),
                decreases steps@.len() - idx,
            {
                if idx == steps.len() {
                    proof {
                        assert(steps@.skip(idx as int) =~= Seq::<ProofStep>::empty());
                    }
                    break ;
                }
                proof {
                    assert(steps@.skip(idx as int).first() == steps@[idx as int]);
                    assert(steps@.skip(idx as int).drop_first() =~= steps@.skip(idx + 1));
                    assert(decreases_to!(steps@ => steps@[idx as int]));
                }
                match fwd_check_step(&steps[idx], all, before) {
                    Some(e) => {
                        return Some(e);
                    },
                    None => {},
                }
                idx = idx + 1;
            }
            None
        },
    }
}

/// Checks the structural invariants of a proof before verification: unique
/// line numbers, no sub-proof without a step beyond its assumption, and no
/// forward or cyclic reference.
pub fn validate_proof(steps: &Vec<ProofStep>) -> (r: Option<StructureError>)
    ensures
        r == sp_structure_error(steps@),
{
    let ns = collect_steps_numbers(steps);
    match find_duplicate(&ns) {
        Some(n) => {
            return Some(StructureError::DuplicateLine(n));
        },
        None => {},
    }
    match find_empty_sub(steps) {
        Some(n) => {
            return Some(StructureError::EmptySubProof(n));
        },
        None => {},
    }
    let mut before: Vec<LineNumber> = Vec::new();
    let ghost b0 = before@;
    proof {
        assert(steps@.skip(0) =~= steps@);
    }
    let mut idx: usize = 0;
    loop
        invariant
            idx <= steps@.len(),
            sp_fwd_seq(steps@, ns@, b0) == sp_fwd_seq(steps@.skip(idx as int), ns@, before@),
            ns@ == steps_numbers(steps@),
            sp_first_dup_from(ns@, 0) is None,
            sp_empty_sub_seq(steps@) is None,
            b0 == Seq::<LineNumber>::empty(),
        ensures
            sp_fwd_seq(steps@, ns@, b0) == Ok::<_, StructureError>(before@),
        decreases steps@.len() - idx,
    {
        if idx == steps.len() {
            proof {
                assert(steps@.skip(idx as int) =~= Seq::<ProofStep>::empty());
            }
            break ;
        }
        proof {
            assert(steps@.skip(idx as int).first() == steps@[idx as int]);
            assert(steps@.skip(idx as int).drop_first() =~= steps@.skip(idx + 1));
        }
        match fwd_check_step(&steps[idx], &ns, &mut before) {
            Some(e) => {
                return Some(e);
            },
            None => {},
        }
        idx = idx + 1;
    }
    proof {
        assert(b0 =~= Seq::<LineNumber>::empty());
    }
    None
}

} // verus!

verus! {

/// Checks a whole proof against its sequent: `Malformed` on a structural
/// violation; otherwise `Proved` exactly when every step is proved and
/// the final top-level step concludes the goal, else `Disproved` with the
/// per-step outcomes in textual order.
pub fn verify(sequent: &Sequent, proof_steps: &Vec<ProofStep>) -> (r: Verdict)
    ensures
        sp_structure_error(proof_steps@) matches Some(e) ==> r == (Verdict::Malformed {
            reason: e,
        }),
        sp_structure_error(proof_steps@) is None && sp_verdict_proved(
            sequent.known@,
            sequent.to_verify,
            proof_steps@,
        ) ==> r == Verdict::Proved,
        sp_structure_error(proof_steps@) is None && !sp_verdict_proved(
            sequent.known@,
            sequent.to_verify,
            proof_steps@,
        ) ==> (r matches Verdict::Disproved { outcomes } && outcomes@ == sp_run(
            sequent.known@,
            proof_steps@,
        ).results),
{
    match validate_proof(proof_steps) {
        Some(e) => {
            return Verdict::Malformed { reason: e };
        },
        None => {},
    }
    let mut frames: Vec<Frame> = Vec::new();
    frames.push(Frame { lines: Vec::new(), subs: Vec::new() });
    let mut st = EngineState { frames, seen: Vec::new(), results: Vec::new() };
    proof {
        assert(st@ =~= sp_initial_state());
        assert(proof_steps@.take(0) =~= Seq::<ProofStep>::empty());
    }
    let mut idx: usize = 0;
    while idx < proof_steps.len()
        invariant
            idx <= proof_steps@.len(),
            st@ == sp_process(sequent.known@, proof_steps@.take(idx as int), sp_initial_state()),
        decreases proof_steps@.len() - idx,
    {
        proof {
            assert(proof_steps@.take(idx + 1).drop_last() =~= proof_steps@.take(idx as int));
            assert(proof_steps@.take(idx + 1).last() == proof_steps@[idx as int]);
        }
        check_step(&sequent.known, &proof_steps[idx], &mut st);
        idx = idx + 1;
    }
    proof {
        assert(proof_steps@.take(proof_steps@.len() as int) =~= proof_steps@);
    }
    let all_ok = all_proved_from(&st.results, 0);
    let goal_ok: bool = if proof_steps.len() > 0 {
        match &proof_steps[proof_steps.len() - 1] {
            ProofStep::RegularStep { claim, .. } => claim.structurally_equals(&sequent.to_verify),
            _ => false,
        }
    } else {
        false
    };
    if all_ok && goal_ok {
        Verdict::Proved
    } else {
        Verdict::Disproved { outcomes: st.results }
    }
}

impl Proof {
    /// Checks this proof, as `verify` does.
    pub fn prove(&self) -> (r: Verdict)
        ensures
            sp_structure_error(self.proof_steps@) matches Some(e) ==> r == (Verdict::Malformed {
                reason: e,
            }),
            sp_structure_error(self.proof_steps@) is None && sp_verdict_proved(
                self.sequent.known@,
                self.sequent.to_verify,
                self.proof_steps@,
            ) ==> r == Verdict::Proved,
            sp_structure_error(self.proof_steps@) is None && !sp_verdict_proved(
                self.sequent.known@,
                self.sequent.to_verify,
                self.proof_steps@,
            ) ==> (r matches Verdict::Disproved { outcomes } && outcomes@ == sp_run(
                self.sequent.known@,
                self.proof_steps@,
            ).results),
    {
        verify(&self.sequent, &self.proof_steps)
    }
}

} // verus!

verus! {

/// The numbers a sub-proof holds inside itself: its assumption line and
/// every number of its nested steps - everything but its own citable
/// number.
pub open spec fn internal_numbers(step: ProofStep) -> Seq<LineNumber> {
    match step {
        ProofStep::RegularStep { line_number, .. } => seq![line_number],
        ProofStep::SubProof { assume_step, steps, .. } => seq![assume_step.0] + steps_numbers(
            steps@,
        ),
    }
}

proof fn lemma_seq_push_contains(s: Seq<LineNumber>, x: LineNumber, y: LineNumber)
    ensures
        s.push(x).contains(y) <==> (s.contains(y) || x == y),
{
    if s.contains(y) {
        let k = choose|k: int| 0 <= k < s.len() && s[k] == y;
        assert(s.push(x)[k] == y);
    }
    assert(s.push(x)[s.len() as int] == x);
    if s.push(x).contains(y) && !(s.contains(y) || x == y) {
        let k = choose|k: int| 0 <= k < s.push(x).len() && s.push(x)[k] == y;
        assert(s[k] == y);
    }
}

/// Processing a step only grows the set of seen numbers, and every number
/// the step holds is seen afterwards.
proof fn lemma_step_seen(premises: Seq<Claim>, step: ProofStep, st: StateModel)
    ensures
        forall|m: LineNumber|
            st.seen.contains(m) ==> #[trigger] sp_step(premises, step, st).seen.contains(m),
        forall|m: LineNumber|
            step_numbers(step).contains(m) ==> #[trigger] sp_step(
                premises,
                step,
                st,
            ).seen.contains(m),
    decreases step,
{
    let r = sp_step(premises, step, st);
    match step {
        ProofStep::RegularStep { line_number, claim, just } => {
            assert forall|m: LineNumber|
                st.seen.contains(m) || step_numbers(step).contains(m) implies r.seen.contains(
                m,
            ) by {
                lemma_seq_push_contains(st.seen, line_number, m);
                if step_numbers(step).contains(m) {
                    assert(step_numbers(step)[0] == line_number);
                    assert(m == line_number);
                }
            }
        },
        ProofStep::SubProof { sub_line_number, assume_step, steps } => {
            let st1 = StateModel {
                frames: st.frames.push(FrameModel { lines: Seq::empty(), subs: Seq::empty() }),
                seen: st.seen.push(sub_line_number),
                results: st.results,
            };
            let al = assume_step.0;
            let st2 = if assume_step.1 is AssumeClaim {
                sp_push_line(st1, al, assume_step.1->AssumeClaim_0, true, None)
            } else {
                sp_mark_line(st1, al, true, None)
            };
            assert(st2.seen == st1.seen.push(al));
            let st3 = sp_process(premises, steps@, st2);
            lemma_process_seen(premises, steps@, st2);
            assert(r.seen == st3.seen);
            assert forall|m: LineNumber|
                st.seen.contains(m) || step_numbers(step).contains(m) implies r.seen.contains(
                m,
            ) by {
                lemma_seq_push_contains(st.seen, sub_line_number, m);
                lemma_seq_push_contains(st.seen.push(sub_line_number), al, m);
                if step_numbers(step).contains(m) {
                    let ns = step_numbers(step);
                    let k = choose|k: int| 0 <= k < ns.len() && ns[k] == m;
                    if k == 0 {
                        assert(m == sub_line_number);
                    } else if k == 1 {
                        assert(m == al);
                    } else {
                        assert(ns[k] == steps_numbers(steps@)[k - 2]);
                        assert(steps_numbers(steps@).contains(m));
                    }
                }
            }
        },
    }
}

proof fn lemma_process_seen(premises: Seq<Claim>, steps: Seq<ProofStep>, st: StateModel)
    ensures
        forall|m: LineNumber|
            st.seen.contains(m) ==> #[trigger] sp_process(premises, steps, st).seen.contains(m),
        forall|m: LineNumber|
            steps_numbers(steps).contains(m) ==> #[trigger] sp_process(
                premises,
                steps,
                st,
            ).seen.contains(m),
    decreases steps,
{
    if steps.len() == 0 {
    } else {
        let st1 = sp_process(premises, steps.drop_last(), st);
        lemma_process_seen(premises, steps.drop_last(), st);
        lemma_step_seen(premises, steps.last(), st1);
        assert(sp_process(premises, steps, st) == sp_step(premises, steps.last(), st1));
        assert forall|m: LineNumber|
            st.seen.contains(m) implies #[trigger] sp_process(premises, steps, st).seen.contains(
            m,
        ) by {
            assert(st1.seen.contains(m));
            assert(sp_step(premises, steps.last(), st1).seen.contains(m));
        }
        assert forall|m: LineNumber|
            steps_numbers(steps).contains(m) implies #[trigger] sp_process(
            premises,
            steps,
            st,
        ).seen.contains(m) by {
            let ns = steps_numbers(steps);
            let pre = steps_numbers(steps.drop_last());
            let post = step_numbers(steps.last());
            assert(ns == pre + post);
            let k = choose|k: int| 0 <= k < ns.len() && ns[k] == m;
            if k < pre.len() {
                assert(pre[k] == m);
                assert(pre.contains(m));
                assert(st1.seen.contains(m));
                assert(sp_step(premises, steps.last(), st1).seen.contains(m));
            } else {
                assert(post[k - pre.len()] == m);
                assert(post.contains(m));
                assert(sp_step(premises, steps.last(), st1).seen.contains(m));
            }
        }
    }
}

/// Processing steps keeps the scope stack's depth and every scope below
/// the innermost one; closing a sub-proof leaves the innermost scope's
/// lines untouched.
proof fn lemma_step_frames(premises: Seq<Claim>, step: ProofStep, st: StateModel)
    requires
        st.frames.len() > 0,
    ensures
        sp_step(premises, step, st).frames.len() == st.frames.len(),
        forall|k: int|
            0 <= k < st.frames.len() - 1 ==> #[trigger] sp_step(premises, step, st).frames[k]
                == st.frames[k],
        step is SubProof ==> sp_step(premises, step, st).frames.last().lines
            == st.frames.last().lines,
    decreases step,
{
    let r = sp_step(premises, step, st);
    match step {
        ProofStep::RegularStep { .. } => {},
        ProofStep::SubProof { sub_line_number, assume_step, steps } => {
            let st1 = StateModel {
                frames: st.frames.push(FrameModel { lines: Seq::empty(), subs: Seq::empty() }),
                seen: st.seen.push(sub_line_number),
                results: st.results,
            };
            let al = assume_step.0;
            let st2 = if assume_step.1 is AssumeClaim {
                sp_push_line(st1, al, assume_step.1->AssumeClaim_0, true, None)
            } else {
                sp_mark_line(st1, al, true, None)
            };
            assert(st2.frames.len() == st.frames.len() + 1);
            assert(forall|k: int|
                0 <= k < st.frames.len() ==> #[trigger] st2.frames[k] == st.frames[k]);
            let st3 = sp_process(premises, steps@, st2);
            lemma_process_frames(premises, steps@, st2);
            assert(st3.frames.len() == st.frames.len() + 1);
            assert(forall|k: int|
                0 <= k < st.frames.len() ==> #[trigger] st3.frames[k] == st.frames[k]);
            let popped = st3.frames.drop_last();
            assert(popped.len() == st.frames.len());
            assert(forall|k: int|
                0 <= k < st.frames.len() ==> #[trigger] popped[k] == st.frames[k]);
            assert(popped.last() == st.frames.last());
        },
    }
}

proof fn lemma_process_frames(premises: Seq<Claim>, steps: Seq<ProofStep>, st: StateModel)
    requires
        st.frames.len() > 0,
    ensures
        sp_process(premises, steps, st).frames.len() == st.frames.len(),
        forall|k: int|
            0 <= k < st.frames.len() - 1 ==> #[trigger] sp_process(premises, steps, st).frames[k]
                == st.frames[k],
    decreases steps,
{
    if steps.len() == 0 {
    } else {
        let st1 = sp_process(premises, steps.drop_last(), st);
        lemma_process_frames(premises, steps.drop_last(), st);
        lemma_step_frames(premises, steps.last(), st1);
    }
}

proof fn lemma_find_line_lines_only(f1: Seq<FrameModel>, f2: Seq<FrameModel>, n: LineNumber)
    requires
        f1.len() == f2.len(),
        forall|k: int| 0 <= k < f1.len() ==> #[trigger] f1[k].lines == f2[k].lines,
    ensures
        sp_find_line(f1, n) == sp_find_line(f2, n),
    decreases f1.len(),
{
    if f1.len() == 0 {
    } else {
        assert(f1.last().lines == f2.last().lines);
        assert forall|k: int|
            0 <= k < f1.drop_last().len() implies #[trigger] f1.drop_last()[k].lines
            == f2.drop_last()[k].lines by {
            assert(f1[k].lines == f2[k].lines);
        }
        lemma_find_line_lines_only(f1.drop_last(), f2.drop_last(), n);
    }
}

/// Scope violation: once a sub-proof closes, its internal line numbers
/// are seen but stand in no open scope, so a later step citing one of
/// them fails with `LineNotVisible` - they are never individually
/// citable outside the sub-proof.
pub proof fn lemma_scope_violation(
    premises: Seq<Claim>,
    step: ProofStep,
    st: StateModel,
    n: LineNumber,
)
    requires
        step is SubProof,
        st.frames.len() > 0,
        internal_numbers(step).contains(n),
        sp_find_line(st.frames, n) is None,
    ensures
        ({
            let st2 = sp_step(premises, step, st);
            &&& sp_find_line(st2.frames, n) is None
            &&& st2.seen.contains(n)
            &&& sp_resolve_line(st2, n) == Err::<LineEntry, _>(
                VerificationError::LineNotVisible { line: n },
            )
        }),
{
    let st2 = sp_step(premises, step, st);
    lemma_step_frames(premises, step, st);
    assert forall|k: int|
        0 <= k < st.frames.len() implies #[trigger] st2.frames[k].lines
        == st.frames[k].lines by {
        if k < st.frames.len() - 1 {
            assert(st2.frames[k] == st.frames[k]);
        } else {
            assert(st2.frames.last().lines == st.frames.last().lines);
        }
    }
    lemma_find_line_lines_only(st2.frames, st.frames, n);
    lemma_step_seen(premises, step, st);
    assert(step_numbers(step).contains(n)) by {
        let ins = internal_numbers(step);
        let k = choose|k: int| 0 <= k < ins.len() && ins[k] == n;
        assert(step_numbers(step)[k + 1] == ins[k]);
    }
}

} // verus!
