//! The expression parser: classifies claim text into tokens and builds a
//! `Claim` tree by precedence climbing.
use vstd::prelude::*;

verus! {

use crate::propositional::{Claim, ClaimModel, Ident, LiteralContainer, Sequent, SequentModel};
use vstd::string::StrSliceExecFns;

/// Why a claim or sequent failed to parse.
#[derive(Debug, Clone, Copy, PartialEq, Eq, Structural)]
pub enum ParseError {
    /// A token stood where the grammar allows none, or text spelled no
    /// token at all.
    UnexpectedToken,
    /// A parenthesized claim was not closed by `)`.
    UnmatchedParenthesis,
    /// An identifier spelled a reserved keyword.
    ReservedIdentifier,
    /// The input ended where the grammar requires more.
    UnexpectedEnd,
}

/// A classified token of the claim language.
#[derive(Debug, PartialEq)]
pub enum ClaimToken {
    BoolLiteral(bool),
    Identifier(Ident),
    Negation,
    Conjunction,
    Disjunction,
    Implication,
    LeftParenthese,
    RightParenthese,
}

/// The mathematical value of a claim token.
pub enum ClaimTokenModel {
    BoolLiteral(bool),
    Identifier(Seq<char>),
    Negation,
    Conjunction,
    Disjunction,
    Implication,
    LeftParenthese,
    RightParenthese,
}

impl View for ClaimToken {
    type V = ClaimTokenModel;

    open spec fn view(&self) -> ClaimTokenModel {
        match self {
            ClaimToken::BoolLiteral(b) => ClaimTokenModel::BoolLiteral(*b),
            ClaimToken::Identifier(s) => ClaimTokenModel::Identifier(s@),
            ClaimToken::Negation => ClaimTokenModel::Negation,
            ClaimToken::Conjunction => ClaimTokenModel::Conjunction,
            ClaimToken::Disjunction => ClaimTokenModel::Disjunction,
            ClaimToken::Implication => ClaimTokenModel::Implication,
            ClaimToken::LeftParenthese => ClaimTokenModel::LeftParenthese,
            ClaimToken::RightParenthese => ClaimTokenModel::RightParenthese,
        }
    }
}

/// The values of a token sequence.
pub open spec fn ctoks_view(ts: Seq<ClaimToken>) -> Seq<ClaimTokenModel> {
    ts.map_values(|t: ClaimToken| t@)
}

/// An ASCII letter.
pub open spec fn sp_is_alpha(c: char) -> bool {
    (65 <= c as u32 && c as u32 <= 90) || (97 <= c as u32 && c as u32 <= 122)
}

fn is_alpha_char(c: char) -> (r: bool)
    ensures
        r == sp_is_alpha(c),
{
    let u = c as u32;
    (65 <= u && u <= 90) || (97 <= u && u <= 122)
}

/// How many ASCII letters the text begins with.
pub open spec fn sp_alpha_prefix(s: Seq<char>) -> nat
    decreases s.len(),
{
    if s.len() > 0 && sp_is_alpha(s[0]) {
        1 + sp_alpha_prefix(s.skip(1))
    } else {
        0
    }
}

proof fn lemma_alpha_prefix(s: Seq<char>)
    ensures
        sp_alpha_prefix(s) <= s.len(),
        forall|k: int| 0 <= k < sp_alpha_prefix(s) ==> sp_is_alpha(s[k]),
        sp_alpha_prefix(s) < s.len() ==> !sp_is_alpha(s[sp_alpha_prefix(s) as int]),
    decreases s.len(),
{
    if s.len() > 0 && sp_is_alpha(s[0]) {
        lemma_alpha_prefix(s.skip(1));
        let n = sp_alpha_prefix(s);
        assert forall|k: int| 0 <= k < n implies sp_is_alpha(s[k]) by {
            if k > 0 {
                assert(sp_is_alpha(s.skip(1)[k - 1]));
            }
        }
    }
}

/// A well-formed identifier: a nonempty ASCII-letter run that spells no
/// reserved keyword. Exactly these identifiers survive a render and
/// re-parse unchanged.
pub open spec fn ident_wf(s: Seq<char>) -> bool {
    s.len() > 0 && (forall|k: int| 0 <= k < s.len() ==> sp_is_alpha(s[k])) && !reserved_word(s)
}

/// The reserved keywords that no identifier may spell.
pub open spec fn reserved_word(s: Seq<char>) -> bool {
    s == "true"@ || s == "false"@ || s == "not"@ || s == "neg"@ || s == "and"@ || s == "or"@ || s
        == "implies"@
}

/// What tokenizing claim text yields: whitespace is dropped, each logical
/// symbol becomes its token, and each maximal letter run becomes an
/// identifier token; any other character is an `UnexpectedToken`.
pub open spec fn sp_tokenize_claim(s: Seq<char>) -> Result<Seq<ClaimTokenModel>, ParseError>
    decreases s.len(),
    via sp_tokenize_claim_dec
{
    if s.len() == 0 {
        Ok(Seq::<ClaimTokenModel>::empty())
    } else if s[0] == ' ' || s[0] == '\n' {
        sp_tokenize_claim(s.skip(1))
    } else if s[0] == '\u{22A4}' {
        cons_ctok(ClaimTokenModel::BoolLiteral(true), sp_tokenize_claim(s.skip(1)))
    } else if s[0] == '\u{22A5}' {
        cons_ctok(ClaimTokenModel::BoolLiteral(false), sp_tokenize_claim(s.skip(1)))
    } else if s[0] == '\u{00AC}' {
        cons_ctok(ClaimTokenModel::Negation, sp_tokenize_claim(s.skip(1)))
    } else if s[0] == '\u{2227}' {
        cons_ctok(ClaimTokenModel::Conjunction, sp_tokenize_claim(s.skip(1)))
    } else if s[0] == '\u{2228}' {
        cons_ctok(ClaimTokenModel::Disjunction, sp_tokenize_claim(s.skip(1)))
    } else if s[0] == '\u{2192}' {
        cons_ctok(ClaimTokenModel::Implication, sp_tokenize_claim(s.skip(1)))
    } else if s[0] == '(' {
        cons_ctok(ClaimTokenModel::LeftParenthese, sp_tokenize_claim(s.skip(1)))
    } else if s[0] == ')' {
        cons_ctok(ClaimTokenModel::RightParenthese, sp_tokenize_claim(s.skip(1)))
    } else if sp_is_alpha(s[0]) {
        let n = sp_alpha_prefix(s);
        cons_ctok(
            ClaimTokenModel::Identifier(s.take(n as int)),
            sp_tokenize_claim(s.skip(n as int)),
        )
    } else {
        Err(ParseError::UnexpectedToken)
    }
}

#[via_fn]
proof fn sp_tokenize_claim_dec(s: Seq<char>) {
    lemma_alpha_prefix(s);
}

pub open spec fn cons_ctok(
    t: ClaimTokenModel,
    rest: Result<Seq<ClaimTokenModel>, ParseError>,
) -> Result<Seq<ClaimTokenModel>, ParseError> {
    match rest {
        Ok(ts) => Ok(seq![t] + ts),
        Err(e) => Err(e),
    }
}

/// Decides whether two string slices hold the same characters.
pub fn str_eq(a: &str, b: &str) -> (r: bool)
    ensures
        r == (a@ == b@),
{
    let na = a.unicode_len();
    let nb = b.unicode_len();
    if na != nb {
        proof {
            assert(a@ != b@) by {
                if a@ == b@ {
                    assert(a@.len() == b@.len());
                }
            }
        }
        return false;
    }
    let mut i: usize = 0;
    while i < na
        invariant
            i <= na,
            na == a@.len(),
            na == b@.len(),
            forall|k: int| 0 <= k < i ==> a@[k] == b@[k],
        decreases na - i,
    {
        if a.get_char(i) != b.get_char(i) {
            return false;
        }
        i = i + 1;
    }
    proof {
        assert(a@ =~= b@);
    }
    true
}

/// Decides whether an identifier spells a reserved keyword.
pub fn is_reserved(s: &str) -> (r: bool)
    ensures
        r == reserved_word(s@),
{
    str_eq(s, "true") || str_eq(s, "false") || str_eq(s, "not") || str_eq(s, "neg")
        || str_eq(s, "and") || str_eq(s, "or") || str_eq(s, "implies")
}

/// Where the run of ASCII letters beginning at `from` ends.
pub fn parse_ascii_alphabetic(s: &str, from: usize) -> (to: usize)
    requires
        from <= s@.len(),
    ensures
        to - from == sp_alpha_prefix(s@.skip(from as int)),
        from <= to <= s@.len(),
{
    let n = s.unicode_len();
    let mut j = from;
    while j < n && is_alpha_char(s.get_char(j))
        invariant
            from <= j <= n,
            n == s@.len(),
            forall|k: int| from <= k < j ==> sp_is_alpha(s@[k]),
        decreases n - j,
    {
        j = j + 1;
    }
    proof {
        lemma_alpha_prefix_at(s@, from as int, j as int);
    }
    j
}

/// The letter-run length at a position, read off the run's bounds.
proof fn lemma_alpha_prefix_at(s: Seq<char>, from: int, j: int)
    requires
        0 <= from <= j <= s.len(),
        forall|k: int| from <= k < j ==> sp_is_alpha(s[k]),
        j < s.len() ==> !sp_is_alpha(s[j]),
    ensures
        sp_alpha_prefix(s.skip(from)) == j - from,
    decreases j - from,
{
    let u = s.skip(from);
    if from == j {
        if u.len() > 0 {
            assert(u[0] == s[from]);
        }
    } else {
        assert(u[0] == s[from]);
        lemma_alpha_prefix_at(s, from + 1, j);
        assert(u.skip(1) =~= s.skip(from + 1));
    }
}

/// Classifies claim text into tokens.
pub fn tokenize_claim(input: &str) -> (r: Result<Vec<ClaimToken>, ParseError>)
    ensures
        match r {
            Ok(ts) => sp_tokenize_claim(input@) == Ok::<_, ParseError>(ctoks_view(ts@)),
            Err(e) => sp_tokenize_claim(input@) == Err::<Seq<ClaimTokenModel>, _>(e),
        },
{
    let r = tokenize_claim_from(input, 0);
    proof {
        assert(input@.skip(0) =~= input@);
    }
    r
}

fn tokenize_claim_from(s: &str, i: usize) -> (r: Result<Vec<ClaimToken>, ParseError>)
    requires
        i <= s@.len(),
    ensures
        match r {
            Ok(ts) => sp_tokenize_claim(s@.skip(i as int)) == Ok::<_, ParseError>(ctoks_view(ts@)),
            Err(e) => sp_tokenize_claim(s@.skip(i as int)) == Err::<Seq<ClaimTokenModel>, _>(e),
        },
    decreases s@.len() - i,
{
    let ghost u = s@.skip(i as int);
    let n = s.unicode_len();
    if i == n {
        let ts: Vec<ClaimToken> = Vec::new();
        proof {
            assert(u.len() == 0);
            assert(ctoks_view(ts@) =~= Seq::<ClaimTokenModel>::empty());
        }
        return Ok(ts);
    }
    let c = s.get_char(i);
    proof {
        assert(u[0] == c);
        assert(u.skip(1) =~= s@.skip(i + 1));
    }
    if c == ' ' || c == '\n' {
        tokenize_claim_from(s, i + 1)
    } else if c == '\u{22A4}' {
        push_front(ClaimToken::BoolLiteral(true), tokenize_claim_from(s, i + 1))
    } else if c == '\u{22A5}' {
        push_front(ClaimToken::BoolLiteral(false), tokenize_claim_from(s, i + 1))
    } else if c == '\u{00AC}' {
        push_front(ClaimToken::Negation, tokenize_claim_from(s, i + 1))
    } else if c == '\u{2227}' {
        push_front(ClaimToken::Conjunction, tokenize_claim_from(s, i + 1))
    } else if c == '\u{2228}' {
        push_front(ClaimToken::Disjunction, tokenize_claim_from(s, i + 1))
    } else if c == '\u{2192}' {
        push_front(ClaimToken::Implication, tokenize_claim_from(s, i + 1))
    } else if c == '(' {
        push_front(ClaimToken::LeftParenthese, tokenize_claim_from(s, i + 1))
    } else if c == ')' {
        push_front(ClaimToken::RightParenthese, tokenize_claim_from(s, i + 1))
    } else if is_alpha_char(c) {
        let j = parse_ascii_alphabetic(s, i);
        let name = s.substring_char(i, j).to_owned();
        proof {
            assert(name@ =~= u.take(sp_alpha_prefix(u) as int));
            assert(s@.skip(j as int) =~= u.skip(sp_alpha_prefix(u) as int));
        }
        push_front(ClaimToken::Identifier(name), tokenize_claim_from(s, j))
    } else {
        Err(ParseError::UnexpectedToken)
    }
}

/// Puts a token before an already-tokenized tail, passing errors through.
fn push_front(t: ClaimToken, rest: Result<Vec<ClaimToken>, ParseError>) -> (r: Result<
    Vec<ClaimToken>,
    ParseError,
>)
    ensures
        match r {
            Ok(ts) => rest matches Ok(ts0) && ctoks_view(ts@) == seq![t@] + ctoks_view(ts0@),
            Err(e) => rest == Err::<Vec<ClaimToken>, _>(e),
        },
{
    match rest {
        Ok(mut ts) => {
            let ghost tail = ts@;
            ts.insert(0, t);
            proof {
                assert(ctoks_view(ts@) =~= seq![t@] + ctoks_view(tail));
            }
            Ok(ts)
        },
        Err(e) => Err(e),
    }
}

} // verus!

verus! {

/// The outcome of one parse level: the claim built and the position after
/// it, or the first error.
pub type ParseStep = Result<(ClaimModel, int), ParseError>;

/// An atom: a literal, a non-reserved identifier, or a parenthesized claim.
pub open spec fn sp_parse_atom(ts: Seq<ClaimTokenModel>, i: int) -> ParseStep
    decreases ts.len() - i, 0int,
{
    if i < 0 || i >= ts.len() {
        Err(ParseError::UnexpectedEnd)
    } else {
        match ts[i] {
            ClaimTokenModel::BoolLiteral(b) => Ok(
                (ClaimModel::Literal(LiteralContainer::Bool(b)), i + 1),
            ),
            ClaimTokenModel::Identifier(s) => if reserved_word(s) {
                Err(ParseError::ReservedIdentifier)
            } else {
                Ok((ClaimModel::Identifier(s), i + 1))
            },
            ClaimTokenModel::LeftParenthese => match sp_parse_imp(ts, i + 1) {
                Ok((c, j)) => if 0 <= j < ts.len() && ts[j] is RightParenthese {
                    Ok((c, j + 1))
                } else {
                    Err(ParseError::UnmatchedParenthesis)
                },
                Err(e) => Err(e),
            },
            _ => Err(ParseError::UnexpectedToken),
        }
    }
}

/// A prefix run of negations folded right-to-left onto an atom.
pub open spec fn sp_parse_neg(ts: Seq<ClaimTokenModel>, i: int) -> ParseStep
    decreases ts.len() - i, 1int,
{
    if 0 <= i && i < ts.len() && ts[i] is Negation {
        match sp_parse_neg(ts, i + 1) {
            Ok((c, j)) => Ok((ClaimModel::Negation(Box::new(c)), j)),
            Err(e) => Err(e),
        }
    } else {
        sp_parse_atom(ts, i)
    }
}

/// A left-associative chain of conjunctions.
pub open spec fn sp_parse_conj(ts: Seq<ClaimTokenModel>, i: int) -> ParseStep
    decreases ts.len() - i, 2int,
{
    match sp_parse_neg(ts, i) {
        Ok((c, j)) => if i < j && j <= ts.len() {
            sp_parse_conj_rest(ts, j, c)
        } else {
            Err(ParseError::UnexpectedToken)
        },
        Err(e) => Err(e),
    }
}

pub open spec fn sp_parse_conj_rest(ts: Seq<ClaimTokenModel>, i: int, acc: ClaimModel) -> ParseStep
    decreases ts.len() - i, 3int,
{
    if 0 <= i && i < ts.len() && ts[i] is Conjunction {
        match sp_parse_neg(ts, i + 1) {
            Ok((c, j)) => if i < j && j <= ts.len() {
                sp_parse_conj_rest(ts, j, ClaimModel::Conjunction(Box::new(acc), Box::new(c)))
            } else {
                Err(ParseError::UnexpectedToken)
            },
            Err(e) => Err(e),
        }
    } else {
        Ok((acc, i))
    }
}

/// A left-associative chain of disjunctions.
pub open spec fn sp_parse_disj(ts: Seq<ClaimTokenModel>, i: int) -> ParseStep
    decreases ts.len() - i, 4int,
{
    match sp_parse_conj(ts, i) {
        Ok((c, j)) => if i < j && j <= ts.len() {
            sp_parse_disj_rest(ts, j, c)
        } else {
            Err(ParseError::UnexpectedToken)
        },
        Err(e) => Err(e),
    }
}

pub open spec fn sp_parse_disj_rest(ts: Seq<ClaimTokenModel>, i: int, acc: ClaimModel) -> ParseStep
    decreases ts.len() - i, 5int,
{
    if 0 <= i && i < ts.len() && ts[i] is Disjunction {
        match sp_parse_conj(ts, i + 1) {
            Ok((c, j)) => if i < j && j <= ts.len() {
                sp_parse_disj_rest(ts, j, ClaimModel::Disjunction(Box::new(acc), Box::new(c)))
            } else {
                Err(ParseError::UnexpectedToken)
            },
            Err(e) => Err(e),
        }
    } else {
        Ok((acc, i))
    }
}

/// A right-associative implication over disjunction chains; the whole
/// grammar starts here.
pub open spec fn sp_parse_imp(ts: Seq<ClaimTokenModel>, i: int) -> ParseStep
    decreases ts.len() - i, 6int,
{
    match sp_parse_disj(ts, i) {
        Ok((l, j)) => if 0 <= j && j < ts.len() && ts[j] is Implication {
            if i <= j {
                match sp_parse_imp(ts, j + 1) {
                    Ok((r, k)) => Ok((ClaimModel::Implication(Box::new(l), Box::new(r)), k)),
                    Err(e) => Err(e),
                }
            } else {
                Err(ParseError::UnexpectedToken)
            }
        } else {
            Ok((l, j))
        },
        Err(e) => Err(e),
    }
}

/// A whole token sequence as one claim: trailing tokens are refused.
pub open spec fn sp_parse_claim(ts: Seq<ClaimTokenModel>) -> Result<ClaimModel, ParseError> {
    match sp_parse_imp(ts, 0) {
        Ok((c, j)) => if j == ts.len() {
            Ok(c)
        } else {
            Err(ParseError::UnexpectedToken)
        },
        Err(e) => Err(e),
    }
}

/// A whole text as one claim: tokenized, then parsed.
pub open spec fn sp_parse_text(s: Seq<char>) -> Result<ClaimModel, ParseError> {
    match sp_tokenize_claim(s) {
        Ok(ts) => sp_parse_claim(ts),
        Err(e) => Err(e),
    }
}

fn parse_atom(ts: &Vec<ClaimToken>, i: usize) -> (r: Result<(Claim, usize), ParseError>)
    ensures
        match r {
            Ok(p) => sp_parse_atom(ctoks_view(ts@), i as int) == Ok::<_, ParseError>(
                (p.0@, p.1 as int),
            ) && p.1 <= ts@.len(),
            Err(e) => sp_parse_atom(ctoks_view(ts@), i as int) == Err::<(ClaimModel, int), _>(e),
        },
    decreases ts@.len() - i, 0nat,
{
    if i >= ts.len() {
        return Err(ParseError::UnexpectedEnd);
    }
    match &ts[i] {
        ClaimToken::BoolLiteral(b) => Ok((Claim::Literal(LiteralContainer::Bool(*b)), i + 1)),
        ClaimToken::Identifier(name) => {
            if is_reserved(name.as_str()) {
                Err(ParseError::ReservedIdentifier)
            } else {
                Ok((Claim::Identifier(name.clone()), i + 1))
            }
        },
        ClaimToken::LeftParenthese => {
            match parse_imp(ts, i + 1) {
                Ok((c, j)) => {
                    if j < ts.len() && matches!(&ts[j], ClaimToken::RightParenthese) {
                        Ok((c, j + 1))
                    } else {
                        Err(ParseError::UnmatchedParenthesis)
                    }
                },
                Err(e) => Err(e),
            }
        },
        _ => Err(ParseError::UnexpectedToken),
    }
}

fn parse_neg(ts: &Vec<ClaimToken>, i: usize) -> (r: Result<(Claim, usize), ParseError>)
    ensures
        match r {
            Ok(p) => sp_parse_neg(ctoks_view(ts@), i as int) == Ok::<_, ParseError>(
                (p.0@, p.1 as int),
            ) && p.1 <= ts@.len(),
            Err(e) => sp_parse_neg(ctoks_view(ts@), i as int) == Err::<(ClaimModel, int), _>(e),
        },
    decreases ts@.len() - i, 1nat,
{
    if i < ts.len() && matches!(&ts[i], ClaimToken::Negation) {
        match parse_neg(ts, i + 1) {
            Ok((c, j)) => Ok((Claim::Negation(Box::new(c)), j)),
            Err(e) => Err(e),
        }
    } else {
        parse_atom(ts, i)
    }
}

fn parse_conj(ts: &Vec<ClaimToken>, i: usize) -> (r: Result<(Claim, usize), ParseError>)
    ensures
        match r {
            Ok(p) => sp_parse_conj(ctoks_view(ts@), i as int) == Ok::<_, ParseError>(
                (p.0@, p.1 as int),
            ) && p.1 <= ts@.len(),
            Err(e) => sp_parse_conj(ctoks_view(ts@), i as int) == Err::<(ClaimModel, int), _>(e),
        },
    decreases ts@.len() - i, 2nat,
{
    match parse_neg(ts, i) {
        Ok((c, j)) => {
            if i < j && j <= ts.len() {
                parse_conj_rest(ts, j, c)
            } else {
                Err(ParseError::UnexpectedToken)
            }
        },
        Err(e) => Err(e),
    }
}

fn parse_conj_rest(ts: &Vec<ClaimToken>, i: usize, acc: Claim) -> (r: Result<
    (Claim, usize),
    ParseError,
>)
    requires
        i <= ts@.len(),
    ensures
        match r {
            Ok(p) => sp_parse_conj_rest(ctoks_view(ts@), i as int, acc@) == Ok::<_, ParseError>(
                (p.0@, p.1 as int),
            ) && p.1 <= ts@.len(),
            Err(e) => sp_parse_conj_rest(ctoks_view(ts@), i as int, acc@) == Err::<
                (ClaimModel, int),
                _,
            >(e),
        },
    decreases ts@.len() - i, 3nat,
{
    if i < ts.len() && matches!(&ts[i], ClaimToken::Conjunction) {
        match parse_neg(ts, i + 1) {
            Ok((c, j)) => {
                if i < j && j <= ts.len() {
                    parse_conj_rest(ts, j, Claim::Conjunction(Box::new(acc), Box::new(c)))
                } else {
                    Err(ParseError::UnexpectedToken)
                }
            },
            Err(e) => Err(e),
        }
    } else {
        Ok((acc, i))
    }
}

fn parse_disj(ts: &Vec<ClaimToken>, i: usize) -> (r: Result<(Claim, usize), ParseError>)
    ensures
        match r {
            Ok(p) => sp_parse_disj(ctoks_view(ts@), i as int) == Ok::<_, ParseError>(
                (p.0@, p.1 as int),
            ) && p.1 <= ts@.len(),
            Err(e) => sp_parse_disj(ctoks_view(ts@), i as int) == Err::<(ClaimModel, int), _>(e),
        },
    decreases ts@.len() - i, 4nat,
{
    match parse_conj(ts, i) {
        Ok((c, j)) => {
            if i < j && j <= ts.len() {
                parse_disj_rest(ts, j, c)
            } else {
                Err(ParseError::UnexpectedToken)
            }
        },
        Err(e) => Err(e),
    }
}

fn parse_disj_rest(ts: &Vec<ClaimToken>, i: usize, acc: Claim) -> (r: Result<
    (Claim, usize),
    ParseError,
>)
    requires
        i <= ts@.len(),
    ensures
        match r {
            Ok(p) => sp_parse_disj_rest(ctoks_view(ts@), i as int, acc@) == Ok::<_, ParseError>(
                (p.0@, p.1 as int),
            ) && p.1 <= ts@.len(),
            Err(e) => sp_parse_disj_rest(ctoks_view(ts@), i as int, acc@) == Err::<
                (ClaimModel, int),
                _,
            >(e),
        },
    decreases ts@.len() - i, 5nat,
{
    if i < ts.len() && matches!(&ts[i], ClaimToken::Disjunction) {
        match parse_conj(ts, i + 1) {
            Ok((c, j)) => {
                if i < j && j <= ts.len() {
                    parse_disj_rest(ts, j, Claim::Disjunction(Box::new(acc), Box::new(c)))
                } else {
                    Err(ParseError::UnexpectedToken)
                }
            },
            Err(e) => Err(e),
        }
    } else {
        Ok((acc, i))
    }
}

fn parse_imp(ts: &Vec<ClaimToken>, i: usize) -> (r: Result<(Claim, usize), ParseError>)
    ensures
        match r {
            Ok(p) => sp_parse_imp(ctoks_view(ts@), i as int) == Ok::<_, ParseError>(
                (p.0@, p.1 as int),
            ) && p.1 <= ts@.len(),
            Err(e) => sp_parse_imp(ctoks_view(ts@), i as int) == Err::<(ClaimModel, int), _>(e),
        },
    decreases ts@.len() - i, 6nat,
{
    match parse_disj(ts, i) {
        Ok((l, j)) => {
            if j < ts.len() && matches!(&ts[j], ClaimToken::Implication) {
                if i <= j {
                    match parse_imp(ts, j + 1) {
                        Ok((r2, k)) => Ok((Claim::Implication(Box::new(l), Box::new(r2)), k)),
                        Err(e) => Err(e),
                    }
                } else {
                    Err(ParseError::UnexpectedToken)
                }
            } else {
                Ok((l, j))
            }
        },
        Err(e) => Err(e),
    }
}

/// Builds the claim a whole token sequence spells, per the grammar's
/// precedence and associativity; trailing tokens are an error.
pub fn parse_claim(tokens: &Vec<ClaimToken>) -> (r: Result<Claim, ParseError>)
    ensures
        match r {
            Ok(c) => sp_parse_claim(ctoks_view(tokens@)) == Ok::<_, ParseError>(c@),
            Err(e) => sp_parse_claim(ctoks_view(tokens@)) == Err::<ClaimModel, _>(e),
        },
{
    match parse_imp(tokens, 0) {
        Ok((c, j)) => {
            if j == tokens.len() {
                Ok(c)
            } else {
                Err(ParseError::UnexpectedToken)
            }
        },
        Err(e) => Err(e),
    }
}

/// Builds the claim a whole text spells: tokenize, then parse.
pub fn parse_claim_text(input: &str) -> (r: Result<Claim, ParseError>)
    ensures
        match r {
            Ok(c) => sp_parse_text(input@) == Ok::<_, ParseError>(c@),
            Err(e) => sp_parse_text(input@) == Err::<ClaimModel, _>(e),
        },
{
    match tokenize_claim(input) {
        Ok(ts) => parse_claim(&ts),
        Err(e) => Err(e),
    }
}

} // verus!

verus! {

/// Where a character first occurs in a text.
pub open spec fn sp_find_char(s: Seq<char>, c: char) -> Option<int>
    decreases s.len(),
{
    if s.len() == 0 {
        None
    } else if s[0] == c {
        Some(0int)
    } else {
        match sp_find_char(s.skip(1), c) {
            Some(i) => Some(i + 1),
            None => None,
        }
    }
}

proof fn lemma_find_char_at(s: Seq<char>, c: char, j: int)
    requires
        0 <= j <= s.len(),
        forall|k: int| 0 <= k < j ==> s[k] != c,
        j < s.len() ==> s[j] == c,
    ensures
        sp_find_char(s, c) == if j < s.len() {
            Some(j)
        } else {
            None::<int>
        },
    decreases j,
{
    if j == 0 {
    } else {
        lemma_find_char_at(s.skip(1), c, j - 1);
    }
}

/// A text of nothing but spaces and newlines.
pub open spec fn sp_all_blank(s: Seq<char>) -> bool {
    forall|i: int| 0 <= i < s.len() ==> s[i] == ' ' || s[i] == '\n'
}

/// The comma-separated claims of a premise list, each parsed as claim
/// text.
pub open spec fn sp_parse_premises(s: Seq<char>) -> Result<Seq<ClaimModel>, ParseError>
    decreases s.len(),
    via sp_parse_premises_dec
{
    match sp_find_char(s, ',') {
        None => match sp_parse_text(s) {
            Ok(c) => Ok(seq![c]),
            Err(e) => Err(e),
        },
        Some(k) => match sp_parse_text(s.take(k)) {
            Ok(c) => match sp_parse_premises(s.skip(k + 1)) {
                Ok(cs) => Ok(seq![c] + cs),
                Err(e) => Err(e),
            },
            Err(e) => Err(e),
        },
    }
}

#[via_fn]
proof fn sp_parse_premises_dec(s: Seq<char>) {
    lemma_find_char_bounds(s, ',');
}

proof fn lemma_find_char_bounds(s: Seq<char>, c: char)
    ensures
        match sp_find_char(s, c) {
            Some(i) => 0 <= i < s.len() && s[i] == c && forall|k: int| 0 <= k < i ==> s[k] != c,
            None => forall|k: int| 0 <= k < s.len() ==> s[k] != c,
        },
    decreases s.len(),
{
    if s.len() == 0 {
    } else if s[0] == c {
    } else {
        lemma_find_char_bounds(s.skip(1), c);
        match sp_find_char(s, c) {
            Some(i) => {
                assert forall|k: int| 0 <= k < i implies s[k] != c by {
                    if k > 0 {
                        assert(s.skip(1)[k - 1] != c);
                    }
                }
            },
            None => {
                assert forall|k: int| 0 <= k < s.len() implies s[k] != c by {
                    if k > 0 {
                        assert(s.skip(1)[k - 1] != c);
                    }
                }
            },
        }
    }
}

/// What parsing a sequent yields: the premise claims before the turnstile
/// (none, if only whitespace stands there) and the goal claim after it.
pub open spec fn sp_parse_sequent(s: Seq<char>) -> Result<SequentModel, ParseError> {
    match sp_find_char(s, '\u{22A2}') {
        None => Err(ParseError::UnexpectedEnd),
        Some(t) => {
            let pre = s.take(t);
            let known = if sp_all_blank(pre) {
                Ok(Seq::<ClaimModel>::empty())
            } else {
                sp_parse_premises(pre)
            };
            match known {
                Ok(ks) => match sp_parse_text(s.skip(t + 1)) {
                    Ok(g) => Ok(SequentModel { known: ks, to_verify: g }),
                    Err(e) => Err(e),
                },
                Err(e) => Err(e),
            }
        },
    }
}

/// Where `target` first occurs in `s` at or after `from`.
fn find_char(s: &str, from: usize, target: char) -> (r: Option<usize>)
    requires
        from <= s@.len(),
    ensures
        match r {
            Some(j) => from <= j < s@.len() && sp_find_char(s@.skip(from as int), target) == Some(
                j - from,
            ),
            None => sp_find_char(s@.skip(from as int), target) is None,
        },
{
    let n = s.unicode_len();
    let mut j = from;
    while j < n && s.get_char(j) != target
        invariant
            from <= j <= n,
            n == s@.len(),
            forall|k: int| from <= k < j ==> s@[k] != target,
        decreases n - j,
    {
        j = j + 1;
    }
    proof {
        let u = s@.skip(from as int);
        lemma_find_char_at(u, target, j - from);
    }
    if j < n {
        Some(j)
    } else {
        None
    }
}

fn is_blank_text(s: &str) -> (r: bool)
    ensures
        r == sp_all_blank(s@),
{
    let n = s.unicode_len();
    let mut i: usize = 0;
    while i < n
        invariant
            i <= n,
            n == s@.len(),
            forall|k: int| 0 <= k < i ==> s@[k] == ' ' || s@[k] == '\n',
        decreases n - i,
    {
        let c = s.get_char(i);
        if c != ' ' && c != '\n' {
            return false;
        }
        i = i + 1;
    }
    true
}

fn parse_premises(s: &str) -> (r: Result<Vec<Claim>, ParseError>)
    ensures
        match r {
            Ok(cs) => sp_parse_premises(s@) == Ok::<_, ParseError>(
                cs@.map_values(|c: Claim| c@),
            ),
            Err(e) => sp_parse_premises(s@) == Err::<Seq<ClaimModel>, _>(e),
        },
    decreases s@.len(),
{
    let n = s.unicode_len();
    match find_char(s, 0, ',') {
        None => {
            proof {
                assert(s@.skip(0) =~= s@);
            }
            match parse_claim_text(s) {
                Ok(c) => {
                    let mut cs: Vec<Claim> = Vec::new();
                    cs.push(c);
                    proof {
                        assert(cs@.map_values(|c: Claim| c@) =~= seq![c@]);
                    }
                    Ok(cs)
                },
                Err(e) => Err(e),
            }
        },
        Some(k) => {
            proof {
                assert(s@.skip(0) =~= s@);
            }
            let head = s.substring_char(0, k);
            proof {
                assert(head@ =~= s@.take(k as int));
            }
            match parse_claim_text(head) {
                Ok(c) => {
                    let tail = s.substring_char(k + 1, n);
                    proof {
                        assert(tail@ =~= s@.skip(k + 1));
                    }
                    match parse_premises(tail) {
                        Ok(mut cs) => {
                            let ghost rest = cs@;
                            cs.insert(0, c);
                            proof {
                                assert(cs@.map_values(|c: Claim| c@) =~= seq![c@]
                                    + rest.map_values(|c: Claim| c@));
                            }
                            Ok(cs)
                        },
                        Err(e) => Err(e),
                    }
                },
                Err(e) => Err(e),
            }
        },
    }
}

/// Parses `premise, ..., premise \u{22A2} goal` into a sequent; with only
/// whitespace before the turnstile the premise list is empty.
pub fn parse_sequent(input: &str) -> (r: Result<Sequent, ParseError>)
    ensures
        match r {
            Ok(sq) => sp_parse_sequent(input@) == Ok::<_, ParseError>(sq@),
            Err(e) => sp_parse_sequent(input@) == Err::<SequentModel, _>(e),
        },
{
    let n = input.unicode_len();
    proof {
        assert(input@.skip(0) =~= input@);
    }
    match find_char(input, 0, '\u{22A2}') {
        None => Err(ParseError::UnexpectedEnd),
        Some(t) => {
            let pre = input.substring_char(0, t);
            proof {
                assert(pre@ =~= input@.take(t as int));
            }
            let known = if is_blank_text(pre) {
                Vec::new()
            } else {
                match parse_premises(pre) {
                    Ok(cs) => cs,
                    Err(e) => {
                        return Err(e);
                    },
                }
            };
            let goal_text = input.substring_char(t + 1, n);
            proof {
                assert(goal_text@ =~= input@.skip(t + 1));
            }
            match parse_claim_text(goal_text) {
                Ok(g) => {
                    let sq = Sequent { known, to_verify: g };
                    proof {
                        assert(sq@ =~= (match sp_parse_sequent(input@) {
                            Ok(m) => m,
                            Err(_) => sq@,
                        }));
                    }
                    Ok(sq)
                },
                Err(e) => Err(e),
            }
        },
    }
}

} // verus!
