//! The classified token alphabet of proof-script text. An outside
//! tokenizer turns raw text into these kinds; the core only consumes
//! already-classified tokens.
use vstd::prelude::*;

verus! {

/// One kind of proof-script token: whitespace and layout, literals and
/// identifiers, punctuation, braces, the logical symbols, and the name of
/// each inference rule.
#[derive(Debug, Clone, Copy, PartialEq, Eq, PartialOrd, Ord, Hash, Structural)]
pub enum SyntaxKind {
    WhiteSpace,
    Newline,
    Integer,
    Identifier,
    Colon,
    Comma,
    Period,
    LeftParen,
    RightParen,
    LeftBrace,
    RightBrace,
    Assume,
    Premise,
    TrueLiteral,
    FalseLiteral,
    Negation,
    Conjunction,
    Disjunction,
    Implication,
    Turnstile,
    AndIntroduction,
    AndElimination1,
    AndElimination2,
    OrIntroduction1,
    OrIntroduction2,
    OrElimination,
    ImplicationIntroduction,
    ImplicationElimination,
    NegationIntroduction,
    NegationElimination,
    ContradictionElimination,
    ProofByContradiction,
    Root,
}

} // verus!

verus! {

/// A classified proof-script token with its byte span in the input.
#[derive(Debug, Clone, Copy, PartialEq, Eq, Structural)]
pub struct LexToken {
    pub kind: SyntaxKind,
    pub start: usize,
    pub end: usize,
}

pub open spec fn lex_is_digit(b: u8) -> bool {
    48 <= b && b <= 57
}

pub open spec fn lex_is_alpha(b: u8) -> bool {
    (65 <= b && b <= 90) || (97 <= b && b <= 122)
}

/// Where the run of bytes satisfying `pred` that begins at `i` ends.
pub open spec fn byte_run_end(s: Seq<u8>, i: int, pred: spec_fn(u8) -> bool) -> int
    decreases s.len() - i,
{
    if 0 <= i && i < s.len() && pred(s[i]) {
        byte_run_end(s, i + 1, pred)
    } else {
        i
    }
}

proof fn lemma_byte_run_end(s: Seq<u8>, i: int, pred: spec_fn(u8) -> bool)
    requires
        0 <= i <= s.len(),
    ensures
        i <= byte_run_end(s, i, pred) <= s.len(),
        forall|k: int| i <= k < byte_run_end(s, i, pred) ==> pred(s[k]),
        byte_run_end(s, i, pred) < s.len() ==> !pred(s[byte_run_end(s, i, pred)]),
        (i < s.len() && pred(s[i])) ==> byte_run_end(s, i, pred) > i,
    decreases s.len() - i,
{
    if i < s.len() && pred(s[i]) {
        lemma_byte_run_end(s, i + 1, pred);
    }
}

pub open spec fn kw_assume() -> Seq<u8> {
    seq![97u8, 115u8, 115u8, 117u8, 109u8, 101u8]
}

pub open spec fn kw_premise() -> Seq<u8> {
    seq![112u8, 114u8, 101u8, 109u8, 105u8, 115u8, 101u8]
}

pub open spec fn kw_pbc() -> Seq<u8> {
    seq![112u8, 98u8, 99u8]
}

/// The token that begins at byte `i`, with the byte position after it:
/// the longest match wins, and a keyword beats an identifier of the same
/// length. `None` where no token matches.
pub open spec fn sp_lex_token(s: Seq<u8>, i: int) -> Option<(SyntaxKind, int)> {
    if i < 0 || i >= s.len() {
        None
    } else {
        let b = s[i];
        if b == 32 {
            Some((SyntaxKind::WhiteSpace, byte_run_end(s, i, |x: u8| x == 32)))
        } else if b == 10 {
            Some((SyntaxKind::Newline, i + 1))
        } else if lex_is_digit(b) {
            Some((SyntaxKind::Integer, byte_run_end(s, i, |x: u8| lex_is_digit(x))))
        } else if lex_is_alpha(b) {
            let j = byte_run_end(s, i, |x: u8| lex_is_alpha(x));
            let word = s.subrange(i, j);
            if word == kw_assume() {
                Some((SyntaxKind::Assume, j))
            } else if word == kw_premise() {
                Some((SyntaxKind::Premise, j))
            } else if word == kw_pbc() {
                Some((SyntaxKind::ProofByContradiction, j))
            } else {
                Some((SyntaxKind::Identifier, j))
            }
        } else if b == 58 {
            Some((SyntaxKind::Colon, i + 1))
        } else if b == 44 {
            Some((SyntaxKind::Comma, i + 1))
        } else if b == 46 {
            Some((SyntaxKind::Period, i + 1))
        } else if b == 40 {
            Some((SyntaxKind::LeftParen, i + 1))
        } else if b == 41 {
            Some((SyntaxKind::RightParen, i + 1))
        } else if b == 123 {
            Some((SyntaxKind::LeftBrace, i + 1))
        } else if b == 125 {
            Some((SyntaxKind::RightBrace, i + 1))
        } else if b == 45 {
            let j = byte_run_end(s, i, |x: u8| x == 45);
            if j - i >= 3 {
                Some((SyntaxKind::Turnstile, j))
            } else {
                None
            }
        } else if b == 0xC2 && i + 2 <= s.len() && s[i + 1] == 0xAC {
            if i + 3 <= s.len() && s[i + 2] == 105 {
                Some((SyntaxKind::NegationIntroduction, i + 3))
            } else if i + 3 <= s.len() && s[i + 2] == 101 {
                Some((SyntaxKind::NegationElimination, i + 3))
            } else {
                Some((SyntaxKind::Negation, i + 2))
            }
        } else if b == 0xE2 && i + 3 <= s.len() {
            let b1 = s[i + 1];
            let b2 = s[i + 2];
            if b1 == 0x8A && b2 == 0xA4 {
                Some((SyntaxKind::TrueLiteral, i + 3))
            } else if b1 == 0x8A && b2 == 0xA5 {
                if i + 4 <= s.len() && s[i + 3] == 101 {
                    Some((SyntaxKind::ContradictionElimination, i + 4))
                } else {
                    Some((SyntaxKind::FalseLiteral, i + 3))
                }
            } else if b1 == 0x8A && b2 == 0xA2 {
                Some((SyntaxKind::Turnstile, i + 3))
            } else if b1 == 0x88 && b2 == 0xA7 {
                if i + 4 <= s.len() && s[i + 3] == 105 {
                    Some((SyntaxKind::AndIntroduction, i + 4))
                } else if i + 5 <= s.len() && s[i + 3] == 101 && s[i + 4] == 49 {
                    Some((SyntaxKind::AndElimination1, i + 5))
                } else if i + 5 <= s.len() && s[i + 3] == 101 && s[i + 4] == 50 {
                    Some((SyntaxKind::AndElimination2, i + 5))
                } else {
                    Some((SyntaxKind::Conjunction, i + 3))
                }
            } else if b1 == 0x88 && b2 == 0xA8 {
                if i + 5 <= s.len() && s[i + 3] == 105 && s[i + 4] == 49 {
                    Some((SyntaxKind::OrIntroduction1, i + 5))
                } else if i + 5 <= s.len() && s[i + 3] == 105 && s[i + 4] == 50 {
                    Some((SyntaxKind::OrIntroduction2, i + 5))
                } else if i + 4 <= s.len() && s[i + 3] == 101 {
                    Some((SyntaxKind::OrElimination, i + 4))
                } else {
                    Some((SyntaxKind::Disjunction, i + 3))
                }
            } else if b1 == 0x86 && b2 == 0x92 {
                if i + 4 <= s.len() && s[i + 3] == 105 {
                    Some((SyntaxKind::ImplicationIntroduction, i + 4))
                } else if i + 4 <= s.len() && s[i + 3] == 101 {
                    Some((SyntaxKind::ImplicationElimination, i + 4))
                } else {
                    Some((SyntaxKind::Implication, i + 3))
                }
            } else {
                None
            }
        } else {
            None
        }
    }
}

/// A lexed token always moves forward and stays within the input.
proof fn lemma_lex_token_progress(s: Seq<u8>, i: int)
    requires
        sp_lex_token(s, i) is Some,
    ensures
        ({
            let (_, j) = sp_lex_token(s, i)->0;
            i < j <= s.len()
        }),
{
    lemma_byte_run_end(s, i, |x: u8| x == 32);
    lemma_byte_run_end(s, i, |x: u8| lex_is_digit(x));
    lemma_byte_run_end(s, i, |x: u8| lex_is_alpha(x));
    lemma_byte_run_end(s, i, |x: u8| x == 45);
}

/// What lexing the whole input from byte `i` yields: each token in turn,
/// or the position where no token matches.
pub open spec fn sp_lex_from(s: Seq<u8>, i: int) -> Result<Seq<LexToken>, int>
    decreases s.len() - i,
    via sp_lex_from_dec
{
    if i < 0 || i >= s.len() {
        Ok(Seq::<LexToken>::empty())
    } else {
        match sp_lex_token(s, i) {
            None => Err(i),
            Some((kind, j)) => match sp_lex_from(s, j) {
                Ok(ts) => Ok(seq![LexToken { kind, start: i as usize, end: j as usize }] + ts),
                Err(e) => Err(e),
            },
        }
    }
}

#[via_fn]
proof fn sp_lex_from_dec(s: Seq<u8>, i: int) {
    if 0 <= i < s.len() && sp_lex_token(s, i) is Some {
        lemma_lex_token_progress(s, i);
    }
}

} // verus!

verus! {

proof fn lemma_byte_run_at(s: Seq<u8>, i: int, j: int, pred: spec_fn(u8) -> bool)
    requires
        0 <= i <= j <= s.len(),
        forall|k: int| i <= k < j ==> pred(s[k]),
        j < s.len() ==> !pred(s[j]),
    ensures
        byte_run_end(s, i, pred) == j,
    decreases j - i,
{
    if i < j {
        lemma_byte_run_at(s, i + 1, j, pred);
    }
}

fn run_spaces(s: &[u8], i: usize) -> (j: usize)
    requires
        i <= s@.len(),
    ensures
        j == byte_run_end(s@, i as int, |x: u8| x == 32),
        i <= j <= s@.len(),
{
    let n = s.len();
    let mut j = i;
    while j < n && s[j] == 32
        invariant
            i <= j <= n,
            n == s@.len(),
            forall|k: int| i <= k < j ==> s@[k] == 32,
        decreases n - j,
    {
        j = j + 1;
    }
    proof {
        lemma_byte_run_at(s@, i as int, j as int, |x: u8| x == 32);
    }
    j
}

fn run_digits(s: &[u8], i: usize) -> (j: usize)
    requires
        i <= s@.len(),
    ensures
        j == byte_run_end(s@, i as int, |x: u8| lex_is_digit(x)),
        i <= j <= s@.len(),
{
    let n = s.len();
    let mut j = i;
    while j < n && 48 <= s[j] && s[j] <= 57
        invariant
            i <= j <= n,
            n == s@.len(),
            forall|k: int| i <= k < j ==> lex_is_digit(s@[k]),
        decreases n - j,
    {
        j = j + 1;
    }
    proof {
        lemma_byte_run_at(s@, i as int, j as int, |x: u8| lex_is_digit(x));
    }
    j
}

fn run_alphas(s: &[u8], i: usize) -> (j: usize)
    requires
        i <= s@.len(),
    ensures
        j == byte_run_end(s@, i as int, |x: u8| lex_is_alpha(x)),
        i <= j <= s@.len(),
{
    let n = s.len();
    let mut j = i;
    while j < n && ((65 <= s[j] && s[j] <= 90) || (97 <= s[j] && s[j] <= 122))
        invariant
            i <= j <= n,
            n == s@.len(),
            forall|k: int| i <= k < j ==> lex_is_alpha(s@[k]),
        decreases n - j,
    {
        j = j + 1;
    }
    proof {
        lemma_byte_run_at(s@, i as int, j as int, |x: u8| lex_is_alpha(x));
    }
    j
}

fn run_dashes(s: &[u8], i: usize) -> (j: usize)
    requires
        i <= s@.len(),
    ensures
        j == byte_run_end(s@, i as int, |x: u8| x == 45),
        i <= j <= s@.len(),
{
    let n = s.len();
    let mut j = i;
    while j < n && s[j] == 45
        invariant
            i <= j <= n,
            n == s@.len(),
            forall|k: int| i <= k < j ==> s@[k] == 45,
        decreases n - j,
    {
        j = j + 1;
    }
    proof {
        lemma_byte_run_at(s@, i as int, j as int, |x: u8| x == 45);
    }
    j
}

fn is_kw_assume(s: &[u8], i: usize, j: usize) -> (r: bool)
    requires
        i <= j <= s@.len(),
    ensures
        r == (s@.subrange(i as int, j as int) == kw_assume()),
{
    if j - i != 6 {
        proof {
            assert(kw_assume().len() == 6);
            assert(s@.subrange(i as int, j as int).len() == j - i);
        }
        return false;
    }
    let r = s[i] == 97 && s[i + 1] == 115 && s[i + 2] == 115 && s[i + 3] == 117 && s[i + 4] == 109
        && s[i + 5] == 101;
    proof {
        if r {
            assert(s@.subrange(i as int, j as int) =~= kw_assume());
        }
        if s@.subrange(i as int, j as int) == kw_assume() {
            assert(forall|k: int|
                0 <= k < 6 ==> s@[i + k] == #[trigger] kw_assume()[k]) by {
                assert(forall|k: int|
                    0 <= k < 6 ==> s@.subrange(i as int, j as int)[k] == #[trigger] kw_assume()[k]);
            }
            assert(s@[i as int] == 97);
            assert(s@[i + 1] == 115);
            assert(s@[i + 2] == 115);
            assert(s@[i + 3] == 117);
            assert(s@[i + 4] == 109);
            assert(s@[i + 5] == 101);
        }
    }
    r
}

fn is_kw_premise(s: &[u8], i: usize, j: usize) -> (r: bool)
    requires
        i <= j <= s@.len(),
    ensures
        r == (s@.subrange(i as int, j as int) == kw_premise()),
{
    if j - i != 7 {
        proof {
            assert(kw_premise().len() == 7);
            assert(s@.subrange(i as int, j as int).len() == j - i);
        }
        return false;
    }
    let r = s[i] == 112 && s[i + 1] == 114 && s[i + 2] == 101 && s[i + 3] == 109 && s[i + 4] == 105
        && s[i + 5] == 115 && s[i + 6] == 101;
    proof {
        if r {
            assert(s@.subrange(i as int, j as int) =~= kw_premise());
        }
        if s@.subrange(i as int, j as int) == kw_premise() {
            assert(forall|k: int|
                0 <= k < 7 ==> s@[i + k] == #[trigger] kw_premise()[k]) by {
                assert(forall|k: int|
                    0 <= k < 7 ==> s@.subrange(i as int, j as int)[k] == #[trigger] kw_premise()[k]);
            }
            assert(s@[i as int] == 112);
            assert(s@[i + 1] == 114);
            assert(s@[i + 2] == 101);
            assert(s@[i + 3] == 109);
            assert(s@[i + 4] == 105);
            assert(s@[i + 5] == 115);
            assert(s@[i + 6] == 101);
        }
    }
    r
}

fn is_kw_pbc(s: &[u8], i: usize, j: usize) -> (r: bool)
    requires
        i <= j <= s@.len(),
    ensures
        r == (s@.subrange(i as int, j as int) == kw_pbc()),
{
    if j - i != 3 {
        proof {
            assert(kw_pbc().len() == 3);
            assert(s@.subrange(i as int, j as int).len() == j - i);
        }
        return false;
    }
    let r = s[i] == 112 && s[i + 1] == 98 && s[i + 2] == 99;
    proof {
        if r {
            assert(s@.subrange(i as int, j as int) =~= kw_pbc());
        }
        if s@.subrange(i as int, j as int) == kw_pbc() {
            assert(forall|k: int| 0 <= k < 3 ==> s@[i + k] == #[trigger] kw_pbc()[k]) by {
                assert(forall|k: int|
                    0 <= k < 3 ==> s@.subrange(i as int, j as int)[k] == #[trigger] kw_pbc()[k]);
            }
            assert(s@[i as int] == 112);
            assert(s@[i + 1] == 98);
            assert(s@[i + 2] == 99);
        }
    }
    r
}

/// Reads the one token that begins at byte `i`.
fn lex_token(s: &[u8], i: usize) -> (r: Option<(SyntaxKind, usize)>)
    ensures
        match r {
            Some(p) => sp_lex_token(s@, i as int) == Some((p.0, p.1 as int)),
            None => sp_lex_token(s@, i as int) is None,
        },
{
    let n = s.len();
    if i >= n {
        return None;
    }
    let b = s[i];
    if b == 32 {
        let j = run_spaces(s, i);
        Some((SyntaxKind::WhiteSpace, j))
    } else if b == 10 {
        Some((SyntaxKind::Newline, i + 1))
    } else if 48 <= b && b <= 57 {
        let j = run_digits(s, i);
        Some((SyntaxKind::Integer, j))
    } else if (65 <= b && b <= 90) || (97 <= b && b <= 122) {
        let j = run_alphas(s, i);
        if is_kw_assume(s, i, j) {
            Some((SyntaxKind::Assume, j))
        } else if is_kw_premise(s, i, j) {
            Some((SyntaxKind::Premise, j))
        } else if is_kw_pbc(s, i, j) {
            Some((SyntaxKind::ProofByContradiction, j))
        } else {
            Some((SyntaxKind::Identifier, j))
        }
    } else if b == 58 {
        Some((SyntaxKind::Colon, i + 1))
    } else if b == 44 {
        Some((SyntaxKind::Comma, i + 1))
    } else if b == 46 {
        Some((SyntaxKind::Period, i + 1))
    } else if b == 40 {
        Some((SyntaxKind::LeftParen, i + 1))
    } else if b == 41 {
        Some((SyntaxKind::RightParen, i + 1))
    } else if b == 123 {
        Some((SyntaxKind::LeftBrace, i + 1))
    } else if b == 125 {
        Some((SyntaxKind::RightBrace, i + 1))
    } else if b == 45 {
        let j = run_dashes(s, i);
        if j - i >= 3 {
            Some((SyntaxKind::Turnstile, j))
        } else {
            None
        }
    } else if b == 0xC2 && n - i >= 2 && s[i + 1] == 0xAC {
        if n - i >= 3 && s[i + 2] == 105 {
            Some((SyntaxKind::NegationIntroduction, i + 3))
        } else if n - i >= 3 && s[i + 2] == 101 {
            Some((SyntaxKind::NegationElimination, i + 3))
        } else {
            Some((SyntaxKind::Negation, i + 2))
        }
    } else if b == 0xE2 && n - i >= 3 {
        let b1 = s[i + 1];
        let b2 = s[i + 2];
        if b1 == 0x8A && b2 == 0xA4 {
            Some((SyntaxKind::TrueLiteral, i + 3))
        } else if b1 == 0x8A && b2 == 0xA5 {
            if n - i >= 4 && s[i + 3] == 101 {
                Some((SyntaxKind::ContradictionElimination, i + 4))
            } else {
                Some((SyntaxKind::FalseLiteral, i + 3))
            }
        } else if b1 == 0x8A && b2 == 0xA2 {
            Some((SyntaxKind::Turnstile, i + 3))
        } else if b1 == 0x88 && b2 == 0xA7 {
            if n - i >= 4 && s[i + 3] == 105 {
                Some((SyntaxKind::AndIntroduction, i + 4))
            } else if n - i >= 5 && s[i + 3] == 101 && s[i + 4] == 49 {
                Some((SyntaxKind::AndElimination1, i + 5))
            } else if n - i >= 5 && s[i + 3] == 101 && s[i + 4] == 50 {
                Some((SyntaxKind::AndElimination2, i + 5))
            } else {
                Some((SyntaxKind::Conjunction, i + 3))
            }
        } else if b1 == 0x88 && b2 == 0xA8 {
            if n - i >= 5 && s[i + 3] == 105 && s[i + 4] == 49 {
                Some((SyntaxKind::OrIntroduction1, i + 5))
            } else if n - i >= 5 && s[i + 3] == 105 && s[i + 4] == 50 {
                Some((SyntaxKind::OrIntroduction2, i + 5))
            } else if n - i >= 4 && s[i + 3] == 101 {
                Some((SyntaxKind::OrElimination, i + 4))
            } else {
                Some((SyntaxKind::Disjunction, i + 3))
            }
        } else if b1 == 0x86 && b2 == 0x92 {
            if n - i >= 4 && s[i + 3] == 105 {
                Some((SyntaxKind::ImplicationIntroduction, i + 4))
            } else if n - i >= 4 && s[i + 3] == 101 {
                Some((SyntaxKind::ImplicationElimination, i + 4))
            } else {
                Some((SyntaxKind::Implication, i + 3))
            }
        } else {
            None
        }
    } else {
        None
    }
}

/// Classifies a whole byte text into proof-script tokens, longest match
/// first; an `Err` carries the byte position where no token matches.
pub fn lex(input: &[u8]) -> (r: Result<Vec<LexToken>, usize>)
    ensures
        match r {
            Ok(ts) => sp_lex_from(input@, 0) == Ok::<_, int>(ts@),
            Err(p) => sp_lex_from(input@, 0) == Err::<Seq<LexToken>, _>(p as int),
        },
{
    lex_from(input, 0)
}

fn lex_from(s: &[u8], i: usize) -> (r: Result<Vec<LexToken>, usize>)
    requires
        i <= s@.len(),
    ensures
        match r {
            Ok(ts) => sp_lex_from(s@, i as int) == Ok::<_, int>(ts@),
            Err(p) => sp_lex_from(s@, i as int) == Err::<Seq<LexToken>, _>(p as int),
        },
    decreases s@.len() - i,
{
    if i >= s.len() {
        let ts: Vec<LexToken> = Vec::new();
        proof {
            assert(ts@ =~= Seq::<LexToken>::empty());
        }
        return Ok(ts);
    }
    match lex_token(s, i) {
        None => Err(i),
        Some((kind, j)) => {
            proof {
                lemma_lex_token_progress(s@, i as int);
            }
            match lex_from(s, j) {
                Ok(mut ts) => {
                    let ghost tail = ts@;
                    ts.insert(0, LexToken { kind, start: i, end: j });
                    proof {
                        assert(ts@ =~= seq![LexToken { kind, start: i, end: j }] + tail);
                    }
                    Ok(ts)
                },
                Err(e) => Err(e),
            }
        },
    }
}

} // verus!
