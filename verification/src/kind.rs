//! The kind checker: walks a claim bottom-up, giving every sub-claim a
//! kind and rejecting the first ill-kinded operand.
use vstd::prelude::*;

verus! {

use crate::propositional::{Claim, ClaimModel, Ident, Kind, LiteralContainer};

/// Why a claim is ill-kinded. Positions index the claim's nodes in
/// preorder, the root at 0.
#[derive(Debug, Clone, Copy, PartialEq, Eq, Structural)]
pub enum KindError {
    /// The node at `position` has kind `found` where `expected` is
    /// required.
    KindMismatch { expected: Kind, found: Kind, position: usize },
    /// The identifier at `position` is not declared, under strict mode.
    UnknownIdentifier { position: usize },
}

/// The kind environment: declared identifiers, first declaration wins.
#[derive(Debug, PartialEq)]
pub struct KindEnv {
    pub entries: Vec<(Ident, Kind)>,
}

impl View for KindEnv {
    type V = Seq<(Seq<char>, Kind)>;

    open spec fn view(&self) -> Seq<(Seq<char>, Kind)> {
        self.entries@.map_values(|p: (Ident, Kind)| (p.0@, p.1))
    }
}

/// The kind the environment declares for a name.
pub open spec fn sp_env_lookup(env: Seq<(Seq<char>, Kind)>, name: Seq<char>) -> Option<Kind>
    decreases env.len(),
{
    if env.len() == 0 {
        None
    } else if env.first().0 == name {
        Some(env.first().1)
    } else {
        sp_env_lookup(env.drop_first(), name)
    }
}

/// How many nodes a claim holds.
pub open spec fn claim_size(c: ClaimModel) -> nat
    decreases c,
{
    match c {
        ClaimModel::Literal(_) => 1,
        ClaimModel::Identifier(_) => 1,
        ClaimModel::Negation(x) => 1 + claim_size(*x),
        ClaimModel::Conjunction(l, r) => 1 + claim_size(*l) + claim_size(*r),
        ClaimModel::Disjunction(l, r) => 1 + claim_size(*l) + claim_size(*r),
        ClaimModel::Implication(l, r) => 1 + claim_size(*l) + claim_size(*r),
    }
}

/// What kind checking yields for the sub-claim whose root stands at
/// preorder position `pos`: its kind and the position after its subtree,
/// or the first failure in traversal order. Bool literals are `Bool`,
/// other literals keep their own kind, identifiers resolve through the
/// environment (undeclared ones fail under strict mode and default to
/// `Bool` otherwise), and every logical operator demands `Bool` operands
/// and yields `Bool`.
pub open spec fn sp_kind_check(
    c: ClaimModel,
    env: Seq<(Seq<char>, Kind)>,
    strict: bool,
    pos: int,
) -> Result<(Kind, int), KindError>
    decreases claim_size(c), 0int,
{
    match c {
        ClaimModel::Literal(LiteralContainer::Bool(_)) => Ok((Kind::Bool, pos + 1)),
        ClaimModel::Literal(LiteralContainer::Int(_)) => Ok((Kind::Int, pos + 1)),
        ClaimModel::Identifier(s) => match sp_env_lookup(env, s) {
            Some(k) => Ok((k, pos + 1)),
            None => if strict {
                Err(KindError::UnknownIdentifier { position: pos as usize })
            } else {
                Ok((Kind::Bool, pos + 1))
            },
        },
        ClaimModel::Negation(x) => match sp_kind_check(*x, env, strict, pos + 1) {
            Ok((k, p1)) => if k == Kind::Bool {
                Ok((Kind::Bool, p1))
            } else {
                Err(
                    KindError::KindMismatch {
                        expected: Kind::Bool,
                        found: k,
                        position: (pos + 1) as usize,
                    },
                )
            },
            Err(e) => Err(e),
        },
        ClaimModel::Conjunction(l, r) => sp_kind_check_binary(*l, *r, env, strict, pos),
        ClaimModel::Disjunction(l, r) => sp_kind_check_binary(*l, *r, env, strict, pos),
        ClaimModel::Implication(l, r) => sp_kind_check_binary(*l, *r, env, strict, pos),
    }
}

/// Both operands of a binary operator are walked left to right; each must
/// be `Bool`, and the operator yields `Bool`.
pub open spec fn sp_kind_check_binary(
    l: ClaimModel,
    r: ClaimModel,
    env: Seq<(Seq<char>, Kind)>,
    strict: bool,
    pos: int,
) -> Result<(Kind, int), KindError>
    decreases claim_size(l) + claim_size(r), 1int,
{
    match sp_kind_check(l, env, strict, pos + 1) {
        Ok((kl, p1)) => if kl != Kind::Bool {
            Err(
                KindError::KindMismatch {
                    expected: Kind::Bool,
                    found: kl,
                    position: (pos + 1) as usize,
                },
            )
        } else {
            match sp_kind_check(r, env, strict, p1) {
                Ok((kr, p2)) => if kr != Kind::Bool {
                    Err(
                        KindError::KindMismatch {
                            expected: Kind::Bool,
                            found: kr,
                            position: p1 as usize,
                        },
                    )
                } else {
                    Ok((Kind::Bool, p2))
                },
                Err(e) => Err(e),
            }
        },
        Err(e) => Err(e),
    }
}

fn env_lookup(env: &KindEnv, name: &str) -> (r: Option<Kind>)
    ensures
        r == sp_env_lookup(env@, name@),
{
    let mut i: usize = 0;
    proof {
        assert(env@.skip(0) =~= env@);
    }
    loop
        invariant
            i <= env@.len(),
            env@.len() == env.entries@.len(),
            sp_env_lookup(env@.skip(i as int), name@) == sp_env_lookup(env@, name@),
        ensures
            sp_env_lookup(env@, name@) is None,
        decreases env@.len() - i,
    {
        if i == env.entries.len() {
            proof {
                assert(env@.skip(i as int) =~= Seq::<(Seq<char>, Kind)>::empty());
            }
            break ;
        }
        proof {
            assert(env@.skip(i as int).first() == env@[i as int]);
            assert(env@.skip(i as int).drop_first() =~= env@.skip(i + 1));
        }
        if crate::parser::str_eq(env.entries[i].0.as_str(), name) {
            return Some(env.entries[i].1);
        }
        i = i + 1;
    }
    None
}

fn kind_check_at(c: &Claim, env: &KindEnv, strict: bool, pos: usize) -> (r: Result<
    (Kind, usize),
    KindError,
>)
    requires
        pos + claim_size(c@) <= usize::MAX,
    ensures
        match r {
            Ok(p) => sp_kind_check(c@, env@, strict, pos as int) == Ok::<_, KindError>(
                (p.0, p.1 as int),
            ) && p.1 == pos + claim_size(c@),
            Err(e) => sp_kind_check(c@, env@, strict, pos as int) == Err::<(Kind, int), _>(e),
        },
    decreases claim_size(c@), 0nat,
{
    match c {
        Claim::Literal(LiteralContainer::Bool(_)) => Ok((Kind::Bool, pos + 1)),
        Claim::Literal(LiteralContainer::Int(_)) => Ok((Kind::Int, pos + 1)),
        Claim::Identifier(s) => match env_lookup(env, s.as_str()) {
            Some(k) => Ok((k, pos + 1)),
            None => {
                if strict {
                    Err(KindError::UnknownIdentifier { position: pos })
                } else {
                    Ok((Kind::Bool, pos + 1))
                }
            },
        },
        Claim::Negation(x) => match kind_check_at(x, env, strict, pos + 1) {
            Ok((k, p1)) => {
                if k == Kind::Bool {
                    Ok((Kind::Bool, p1))
                } else {
                    Err(
                        KindError::KindMismatch {
                            expected: Kind::Bool,
                            found: k,
                            position: pos + 1,
                        },
                    )
                }
            },
            Err(e) => Err(e),
        },
        Claim::Conjunction(l, r) => kind_check_binary_at(l, r, env, strict, pos),
        Claim::Disjunction(l, r) => kind_check_binary_at(l, r, env, strict, pos),
        Claim::Implication(l, r) => kind_check_binary_at(l, r, env, strict, pos),
    }
}

fn kind_check_binary_at(l: &Claim, r: &Claim, env: &KindEnv, strict: bool, pos: usize) -> (res:
    Result<(Kind, usize), KindError>)
    requires
        pos + 1 + claim_size(l@) + claim_size(r@) <= usize::MAX,
    ensures
        match res {
            Ok(p) => sp_kind_check_binary(l@, r@, env@, strict, pos as int) == Ok::<_, KindError>(
                (p.0, p.1 as int),
            ) && p.1 == pos + 1 + claim_size(l@) + claim_size(r@),
            Err(e) => sp_kind_check_binary(l@, r@, env@, strict, pos as int) == Err::<
                (Kind, int),
                _,
            >(e),
        },
    decreases claim_size(l@) + claim_size(r@), 1nat,
{
    match kind_check_at(l, env, strict, pos + 1) {
        Ok((kl, p1)) => {
            if kl != Kind::Bool {
                Err(
                    KindError::KindMismatch { expected: Kind::Bool, found: kl, position: pos + 1 },
                )
            } else {
                match kind_check_at(r, env, strict, p1) {
                    Ok((kr, p2)) => {
                        if kr != Kind::Bool {
                            Err(
                                KindError::KindMismatch {
                                    expected: Kind::Bool,
                                    found: kr,
                                    position: p1,
                                },
                            )
                        } else {
                            Ok((Kind::Bool, p2))
                        }
                    },
                    Err(e) => Err(e),
                }
            }
        },
        Err(e) => Err(e),
    }
}

/// Checks that every sub-claim is well-kinded, yielding the root's kind.
/// Under strict mode an undeclared identifier fails; otherwise it counts
/// as `Bool`.
pub fn kind_check(c: &Claim, env: &KindEnv, strict: bool) -> (r: Result<Kind, KindError>)
    requires
        claim_size(c@) <= usize::MAX,
    ensures
        match r {
            Ok(k) => sp_kind_check(c@, env@, strict, 0) matches Ok(p) && p.0 == k,
            Err(e) => sp_kind_check(c@, env@, strict, 0) == Err::<(Kind, int), _>(e),
        },
{
    match kind_check_at(c, env, strict, 0) {
        Ok((k, _)) => Ok(k),
        Err(e) => Err(e),
    }
}

} // verus!
