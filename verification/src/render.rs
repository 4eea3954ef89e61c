//! Rendering claims to fully parenthesized text, and the round-trip law:
//! re-parsing a rendered claim yields a structurally equal claim.
use vstd::prelude::*;

verus! {

use crate::propositional::{Claim, ClaimModel, LiteralContainer};
use crate::kind::claim_size;
use crate::parser::{
    ClaimTokenModel,
    cons_ctok,
    ParseError,
    ident_wf,
    reserved_word,
    sp_is_alpha,
    sp_alpha_prefix,
    sp_parse_atom,
    sp_parse_claim,
    sp_parse_conj,
    sp_parse_conj_rest,
    sp_parse_disj,
    sp_parse_disj_rest,
    sp_parse_imp,
    sp_parse_neg,
    sp_parse_text,
    sp_tokenize_claim,
};
use vstd::string::StringExecFns;
use vstd::string::StrSliceExecFns;

/// A claim whose literals are all `Bool`: the claims the renderer can
/// spell.
pub open spec fn sp_bool_only(c: ClaimModel) -> bool
    decreases c,
{
    match c {
        ClaimModel::Literal(l) => l is Bool,
        ClaimModel::Identifier(_) => true,
        ClaimModel::Negation(x) => sp_bool_only(*x),
        ClaimModel::Conjunction(l, r) => sp_bool_only(*l) && sp_bool_only(*r),
        ClaimModel::Disjunction(l, r) => sp_bool_only(*l) && sp_bool_only(*r),
        ClaimModel::Implication(l, r) => sp_bool_only(*l) && sp_bool_only(*r),
    }
}

/// A claim that round-trips: all literals `Bool`, every identifier a
/// nonempty ASCII-letter run that spells no reserved keyword.
pub open spec fn claim_wf(c: ClaimModel) -> bool
    decreases c,
{
    match c {
        ClaimModel::Literal(l) => l is Bool,
        ClaimModel::Identifier(s) => ident_wf(s),
        ClaimModel::Negation(x) => claim_wf(*x),
        ClaimModel::Conjunction(l, r) => claim_wf(*l) && claim_wf(*r),
        ClaimModel::Disjunction(l, r) => claim_wf(*l) && claim_wf(*r),
        ClaimModel::Implication(l, r) => claim_wf(*l) && claim_wf(*r),
    }
}

/// The fully parenthesized text of a claim: every compound claim stands
/// in its own parentheses.
pub open spec fn sp_render(c: ClaimModel) -> Seq<char>
    decreases c,
{
    match c {
        ClaimModel::Literal(LiteralContainer::Bool(b)) => if b {
            seq!['\u{22A4}']
        } else {
            seq!['\u{22A5}']
        },
        ClaimModel::Literal(_) => Seq::<char>::empty(),
        ClaimModel::Identifier(s) => s,
        ClaimModel::Negation(x) => seq!['(', '\u{00AC}'] + sp_render(*x) + seq![')'],
        ClaimModel::Conjunction(l, r) => seq!['('] + sp_render(*l) + seq!['\u{2227}'] + sp_render(
            *r,
        ) + seq![')'],
        ClaimModel::Disjunction(l, r) => seq!['('] + sp_render(*l) + seq!['\u{2228}'] + sp_render(
            *r,
        ) + seq![')'],
        ClaimModel::Implication(l, r) => seq!['('] + sp_render(*l) + seq!['\u{2192}'] + sp_render(
            *r,
        ) + seq![')'],
    }
}

/// The tokens the rendered text spells.
pub open spec fn sp_render_tokens(c: ClaimModel) -> Seq<ClaimTokenModel>
    decreases c,
{
    match c {
        ClaimModel::Literal(LiteralContainer::Bool(b)) => seq![ClaimTokenModel::BoolLiteral(b)],
        ClaimModel::Literal(_) => Seq::<ClaimTokenModel>::empty(),
        ClaimModel::Identifier(s) => seq![ClaimTokenModel::Identifier(s)],
        ClaimModel::Negation(x) => seq![
            ClaimTokenModel::LeftParenthese,
            ClaimTokenModel::Negation,
        ] + sp_render_tokens(*x) + seq![ClaimTokenModel::RightParenthese],
        ClaimModel::Conjunction(l, r) => seq![ClaimTokenModel::LeftParenthese] + sp_render_tokens(
            *l,
        ) + seq![ClaimTokenModel::Conjunction] + sp_render_tokens(*r) + seq![
            ClaimTokenModel::RightParenthese,
        ],
        ClaimModel::Disjunction(l, r) => seq![ClaimTokenModel::LeftParenthese] + sp_render_tokens(
            *l,
        ) + seq![ClaimTokenModel::Disjunction] + sp_render_tokens(*r) + seq![
            ClaimTokenModel::RightParenthese,
        ],
        ClaimModel::Implication(l, r) => seq![ClaimTokenModel::LeftParenthese] + sp_render_tokens(
            *l,
        ) + seq![ClaimTokenModel::Implication] + sp_render_tokens(*r) + seq![
            ClaimTokenModel::RightParenthese,
        ],
    }
}

/// Renders a claim to fully parenthesized text.
pub fn render_claim(c: &Claim) -> (r: String)
    requires
        sp_bool_only(c@),
    ensures
        r@ == sp_render(c@),
    decreases claim_size(c@), 1nat,
{
    match c {
        Claim::Literal(LiteralContainer::Bool(b)) => {
            let s = if *b {
                "\u{22A4}"
            } else {
                "\u{22A5}"
            };
            proof {
                reveal_strlit("\u{22A4}");
                reveal_strlit("\u{22A5}");
                assert(s@ =~= sp_render(c@));
            }
            s.to_owned()
        },
        Claim::Literal(_) => {
            proof {
                assert(false);
            }
            String::new()
        },
        Claim::Identifier(s) => s.clone(),
        Claim::Negation(x) => {
            let mut out = String::new();
            out.append("(\u{00AC}");
            let inner = render_claim(x);
            out.append(inner.as_str());
            out.append(")");
            proof {
                reveal_strlit("(\u{00AC}");
                reveal_strlit(")");
                assert(out@ =~= sp_render(c@));
            }
            out
        },
        Claim::Conjunction(l, r) => {
            let out = render_binary(l, r, "\u{2227}");
            proof {
                reveal_strlit("\u{2227}");
                assert(out@ =~= sp_render(c@));
            }
            out
        },
        Claim::Disjunction(l, r) => {
            let out = render_binary(l, r, "\u{2228}");
            proof {
                reveal_strlit("\u{2228}");
                assert(out@ =~= sp_render(c@));
            }
            out
        },
        Claim::Implication(l, r) => {
            let out = render_binary(l, r, "\u{2192}");
            proof {
                reveal_strlit("\u{2192}");
                assert(out@ =~= sp_render(c@));
            }
            out
        },
    }
}

fn render_binary(l: &Claim, r: &Claim, op: &str) -> (out: String)
    requires
        sp_bool_only(l@),
        sp_bool_only(r@),
    ensures
        out@ == seq!['('] + sp_render(l@) + op@ + sp_render(r@) + seq![')'],
    decreases claim_size(l@) + claim_size(r@), 0nat,
{
    let mut out = String::new();
    out.append("(");
    let lt = render_claim(l);
    out.append(lt.as_str());
    out.append(op);
    let rt = render_claim(r);
    out.append(rt.as_str());
    out.append(")");
    proof {
        reveal_strlit("(");
        reveal_strlit(")");
        assert(out@ =~= seq!['('] + sp_render(l@) + op@ + sp_render(r@) + seq![')']);
    }
    out
}

} // verus!

verus! {

pub open spec fn prepend_toks(
    ts: Seq<ClaimTokenModel>,
    r: Result<Seq<ClaimTokenModel>, ParseError>,
) -> Result<Seq<ClaimTokenModel>, ParseError> {
    match r {
        Ok(u) => Ok(ts + u),
        Err(e) => Err(e),
    }
}

proof fn lemma_alpha_prefix_concat(s: Seq<char>, rest: Seq<char>)
    requires
        s.len() > 0,
        forall|k: int| 0 <= k < s.len() ==> sp_is_alpha(s[k]),
        rest.len() == 0 || !sp_is_alpha(rest[0]),
    ensures
        sp_alpha_prefix(s + rest) == s.len(),
    decreases s.len(),
{
    let u = s + rest;
    assert(u[0] == s[0]);
    assert(sp_is_alpha(u[0]));
    if s.len() == 1 {
        assert(u.skip(1) =~= rest);
        assert(sp_alpha_prefix(rest) == 0);
        assert(sp_alpha_prefix(u) == 1 + sp_alpha_prefix(u.skip(1)));
    } else {
        assert(u.skip(1) =~= s.skip(1) + rest);
        assert forall|k: int| 0 <= k < s.skip(1).len() implies sp_is_alpha(s.skip(1)[k]) by {
            assert(s.skip(1)[k] == s[k + 1]);
        }
        lemma_alpha_prefix_concat(s.skip(1), rest);
    }
}

/// The rendered token list of a well-formed claim is nonempty and begins
/// with a parenthesis, a literal, or an identifier - never an operator.
proof fn lemma_rt_first(c: ClaimModel)
    requires
        claim_wf(c),
    ensures
        sp_render_tokens(c).len() >= 1,
        sp_render_tokens(c)[0] is LeftParenthese || sp_render_tokens(c)[0] is BoolLiteral
            || sp_render_tokens(c)[0] is Identifier,
{
    match c {
        ClaimModel::Literal(_) => {},
        ClaimModel::Identifier(_) => {},
        ClaimModel::Negation(_) => {},
        ClaimModel::Conjunction(_, _) => {},
        ClaimModel::Disjunction(_, _) => {},
        ClaimModel::Implication(_, _) => {},
    }
}

/// Tokenizing a rendered claim followed by more text yields the claim's
/// tokens followed by the tokens of the rest, provided the rest does not
/// begin with a letter that would merge into a trailing identifier.
proof fn lemma_tokenize_render(c: ClaimModel, rest: Seq<char>)
    requires
        claim_wf(c),
        rest.len() == 0 || !sp_is_alpha(rest[0]),
    ensures
        sp_tokenize_claim(sp_render(c) + rest) == prepend_toks(
            sp_render_tokens(c),
            sp_tokenize_claim(rest),
        ),
    decreases claim_size(c), 1nat,
{
    let u = sp_render(c) + rest;
    match c {
        ClaimModel::Literal(l) => {
            assert(u[0] == sp_render(c)[0]);
            assert(u.skip(1) =~= rest);
            match sp_tokenize_claim(rest) {
                Ok(ts) => {
                    assert(seq![sp_render_tokens(c)[0]] + ts =~= sp_render_tokens(c) + ts);
                },
                Err(_) => {},
            }
            assert(sp_tokenize_claim(sp_render(c) + rest) == prepend_toks(
                sp_render_tokens(c),
                sp_tokenize_claim(rest),
            ));
        },
        ClaimModel::Identifier(name) => {
            assert(u[0] == name[0]);
            lemma_alpha_prefix_concat(name, rest);
            assert(u.take(name.len() as int) =~= name);
            assert(u.skip(name.len() as int) =~= rest);
            match sp_tokenize_claim(rest) {
                Ok(ts) => {
                    assert(seq![ClaimTokenModel::Identifier(name)] + ts =~= sp_render_tokens(c)
                        + ts);
                },
                Err(_) => {},
            }
            assert(sp_tokenize_claim(sp_render(c) + rest) == prepend_toks(
                sp_render_tokens(c),
                sp_tokenize_claim(rest),
            ));
        },
        ClaimModel::Negation(x) => {
            assert(u[0] == '(');
            let u1 = u.skip(1);
            let rx = seq![')'] + rest;
            assert(u1 =~= seq!['\u{00AC}'] + (sp_render(*x) + rx));
            assert(u1[0] == '\u{00AC}');
            let u2 = u1.skip(1);
            assert(u2 =~= sp_render(*x) + rx);
            assert(rx[0] == ')');
            lemma_tokenize_render(*x, rx);
            assert(rx.skip(1) =~= rest);
            assert(u.len() > 0);
            assert(sp_tokenize_claim(u) == cons_ctok(
                ClaimTokenModel::LeftParenthese,
                sp_tokenize_claim(u1),
            ));
            assert(u1.len() > 0);
            assert(sp_tokenize_claim(u1) == cons_ctok(
                ClaimTokenModel::Negation,
                sp_tokenize_claim(u2),
            ));
            assert(rx.len() > 0);
            assert(sp_tokenize_claim(rx) == cons_ctok(
                ClaimTokenModel::RightParenthese,
                sp_tokenize_claim(rest),
            ));
            match sp_tokenize_claim(rest) {
                Ok(ts) => {
                    assert(sp_tokenize_claim(rx) == Ok::<_, ParseError>(
                        seq![ClaimTokenModel::RightParenthese] + ts,
                    ));
                    assert(seq![ClaimTokenModel::LeftParenthese] + (seq![ClaimTokenModel::Negation]
                        + (sp_render_tokens(*x) + (seq![ClaimTokenModel::RightParenthese] + ts)))
                        =~= sp_render_tokens(c) + ts);
                },
                Err(_) => {},
            }
            assert(sp_tokenize_claim(sp_render(c) + rest) == prepend_toks(
                sp_render_tokens(c),
                sp_tokenize_claim(rest),
            ));
        },
        ClaimModel::Conjunction(l, r) => {
            lemma_tokenize_render_binary(
                *l,
                *r,
                rest,
                '\u{2227}',
                ClaimTokenModel::Conjunction,
                c,
            );
        },
        ClaimModel::Disjunction(l, r) => {
            lemma_tokenize_render_binary(
                *l,
                *r,
                rest,
                '\u{2228}',
                ClaimTokenModel::Disjunction,
                c,
            );
        },
        ClaimModel::Implication(l, r) => {
            lemma_tokenize_render_binary(
                *l,
                *r,
                rest,
                '\u{2192}',
                ClaimTokenModel::Implication,
                c,
            );
        },
    }
}

proof fn lemma_tokenize_render_binary(
    lm: ClaimModel,
    rm: ClaimModel,
    rest: Seq<char>,
    opc: char,
    opt: ClaimTokenModel,
    c: ClaimModel,
)
    requires
        claim_wf(lm),
        claim_wf(rm),
        rest.len() == 0 || !sp_is_alpha(rest[0]),
        (opc == '\u{2227}' && opt == ClaimTokenModel::Conjunction && c
            == ClaimModel::Conjunction(Box::new(lm), Box::new(rm))) || (opc == '\u{2228}' && opt
            == ClaimTokenModel::Disjunction && c == ClaimModel::Disjunction(
            Box::new(lm),
            Box::new(rm),
        )) || (opc == '\u{2192}' && opt == ClaimTokenModel::Implication && c
            == ClaimModel::Implication(Box::new(lm), Box::new(rm))),
    ensures
        sp_tokenize_claim(sp_render(c) + rest) == prepend_toks(
            sp_render_tokens(c),
            sp_tokenize_claim(rest),
        ),
    decreases claim_size(lm) + claim_size(rm), 0nat,
{
    let u = sp_render(c) + rest;
    assert(sp_render(c) =~= seq!['('] + sp_render(lm) + seq![opc] + sp_render(rm) + seq![')']);
    assert(sp_render_tokens(c) =~= seq![ClaimTokenModel::LeftParenthese] + sp_render_tokens(lm)
        + seq![opt] + sp_render_tokens(rm) + seq![ClaimTokenModel::RightParenthese]);
    assert(u[0] == '(');
    let u1 = u.skip(1);
    let rclose = seq![')'] + rest;
    let rmid = seq![opc] + (sp_render(rm) + rclose);
    assert(u1 =~= sp_render(lm) + rmid);
    assert(rmid[0] == opc);
    lemma_tokenize_render(lm, rmid);
    let u2 = rmid.skip(1);
    assert(u2 =~= sp_render(rm) + rclose);
    assert(rclose[0] == ')');
    lemma_tokenize_render(rm, rclose);
    assert(rclose.skip(1) =~= rest);
    match sp_tokenize_claim(rest) {
        Ok(ts) => {
            assert(sp_tokenize_claim(rclose) == Ok::<_, ParseError>(
                seq![ClaimTokenModel::RightParenthese] + ts,
            ));
            assert(sp_tokenize_claim(u2) == Ok::<_, ParseError>(
                sp_render_tokens(rm) + (seq![ClaimTokenModel::RightParenthese] + ts),
            ));
            assert(sp_tokenize_claim(rmid) == Ok::<_, ParseError>(
                seq![opt] + (sp_render_tokens(rm) + (seq![ClaimTokenModel::RightParenthese] + ts)),
            ));
            assert(sp_tokenize_claim(u1) == Ok::<_, ParseError>(
                sp_render_tokens(lm) + (seq![opt] + (sp_render_tokens(rm) + (seq![
                    ClaimTokenModel::RightParenthese,
                ] + ts))),
            ));
            assert(seq![ClaimTokenModel::LeftParenthese] + (sp_render_tokens(lm) + (seq![opt] + (
            sp_render_tokens(rm) + (seq![ClaimTokenModel::RightParenthese] + ts)))) =~= sp_render_tokens(
                c,
            ) + ts);
        },
        Err(_) => {},
    }
}

} // verus!

verus! {

/// Every rendered claim parses as one atom: the parser, started at the
/// claim's first token, rebuilds exactly that claim and stops after its
/// last token.
proof fn lemma_parse_atom_rt(c: ClaimModel, ts: Seq<ClaimTokenModel>, i: int)
    requires
        claim_wf(c),
        0 <= i,
        i + sp_render_tokens(c).len() <= ts.len(),
        ts.subrange(i, i + sp_render_tokens(c).len() as int) == sp_render_tokens(c),
    ensures
        sp_parse_atom(ts, i) == Ok::<_, ParseError>((c, i + sp_render_tokens(c).len())),
    decreases c,
{
    let rt = sp_render_tokens(c);
    let ln = rt.len() as int;
    assert(forall|k: int| 0 <= k < ln ==> ts[i + k] == #[trigger] rt[k]) by {
        assert(forall|k: int|
            0 <= k < ln ==> ts.subrange(i, i + ln)[k] == #[trigger] rt[k]);
    }
    match c {
        ClaimModel::Literal(l) => {
            assert(ts[i] == rt[0]);
        },
        ClaimModel::Identifier(name) => {
            assert(ts[i] == rt[0]);
            assert(!reserved_word(name));
        },
        ClaimModel::Negation(x) => {
            let rx = sp_render_tokens(*x);
            let lx = rx.len() as int;
            lemma_rt_first(*x);
            let ncat = seq![ClaimTokenModel::LeftParenthese, ClaimTokenModel::Negation] + rx + seq![
                ClaimTokenModel::RightParenthese,
            ];
            assert(rt =~= ncat);
            assert(ts[i] == rt[0] && rt[0] == ncat[0] && ncat[0] is LeftParenthese);
            assert(ts[i + 1] == rt[1] && rt[1] == ncat[1] && ncat[1] is Negation);
            assert(ts[i] is LeftParenthese);
            assert(ts[i + 1] is Negation);
            assert forall|k: int| 0 <= k < lx implies ts.subrange(i + 2, i + 2 + lx)[k] == rx[k] by {
                assert(ts.subrange(i + 2, i + 2 + lx)[k] == ts[i + 2 + k]);
                assert(ts[i + 2 + k] == rt[2 + k]);
                assert(rt[2 + k] == ncat[2 + k]);
                assert(ncat[2 + k] == rx[k]);
            }
            assert(ts.subrange(i + 2, i + 2 + lx) =~= rx);
            lemma_parse_atom_rt(*x, ts, i + 2);
            let p = i + 2 + lx;
            assert(ts[p] == rt[2 + lx] && rt[2 + lx] == ncat[2 + lx] && ncat[2 + lx]
                is RightParenthese);
            assert(ts[p] is RightParenthese);
            assert(ts[i + 2] == rx[0]);
            assert(sp_parse_neg(ts, i + 2) == Ok::<_, ParseError>((*x, p)));
            assert(sp_parse_neg(ts, i + 1) == Ok::<_, ParseError>((
                ClaimModel::Negation(Box::new(*x)),
                p,
            )));
            assert(sp_parse_conj(ts, i + 1) == Ok::<_, ParseError>((
                ClaimModel::Negation(Box::new(*x)),
                p,
            )));
            assert(sp_parse_disj(ts, i + 1) == Ok::<_, ParseError>((
                ClaimModel::Negation(Box::new(*x)),
                p,
            )));
            assert(sp_parse_imp(ts, i + 1) == Ok::<_, ParseError>((
                ClaimModel::Negation(Box::new(*x)),
                p,
            )));
            assert(sp_parse_atom(ts, i) == Ok::<_, ParseError>((c, p + 1)));
        },
        ClaimModel::Conjunction(a, b) => {
            lemma_parse_binary_rt(c, *a, *b, ts, i);
        },
        ClaimModel::Disjunction(a, b) => {
            lemma_parse_binary_rt(c, *a, *b, ts, i);
        },
        ClaimModel::Implication(a, b) => {
            lemma_parse_binary_rt(c, *a, *b, ts, i);
        },
    }
}

/// The parenthesized body of a rendered binary claim parses back to it.
#[verifier::rlimit(80)]
proof fn lemma_parse_binary_rt(
    c: ClaimModel,
    a: ClaimModel,
    b: ClaimModel,
    ts: Seq<ClaimTokenModel>,
    i: int,
)
    requires
        claim_wf(c),
        c == ClaimModel::Conjunction(Box::new(a), Box::new(b)) || c == ClaimModel::Disjunction(
            Box::new(a),
            Box::new(b),
        ) || c == ClaimModel::Implication(Box::new(a), Box::new(b)),
        0 <= i,
        i + sp_render_tokens(c).len() <= ts.len(),
        ts.subrange(i, i + sp_render_tokens(c).len() as int) == sp_render_tokens(c),
    ensures
        sp_parse_atom(ts, i) == Ok::<_, ParseError>((c, i + sp_render_tokens(c).len())),
    decreases c, 1nat,
{
    let rt = sp_render_tokens(c);
    let ln = rt.len() as int;
    let ra = sp_render_tokens(a);
    let rb = sp_render_tokens(b);
    let la = ra.len() as int;
    let lb = rb.len() as int;
    let op: ClaimTokenModel = if c is Conjunction {
        ClaimTokenModel::Conjunction
    } else if c is Disjunction {
        ClaimTokenModel::Disjunction
    } else {
        ClaimTokenModel::Implication
    };
    let cat = seq![ClaimTokenModel::LeftParenthese] + ra + seq![op] + rb + seq![
        ClaimTokenModel::RightParenthese,
    ];
    assert(rt =~= cat);
    assert(ln == 3 + la + lb);
    assert(forall|k: int| 0 <= k < ln ==> ts[i + k] == #[trigger] rt[k]) by {
        assert(forall|k: int|
            0 <= k < ln ==> ts.subrange(i, i + ln)[k] == #[trigger] rt[k]);
    }
    lemma_rt_first(a);
    lemma_rt_first(b);
    let p = i + 1 + la;
    let q = p + 1 + lb;
    assert(cat[0] is LeftParenthese);
    assert(ts[i] == rt[0]);
    assert(ts[i] is LeftParenthese);
    assert(cat[1 + la] == op);
    assert(ts[p] == rt[1 + la]);
    assert(ts[p] == op);
    assert(cat[2 + la + lb] is RightParenthese);
    assert(ts[q] == rt[2 + la + lb]);
    assert(ts[q] is RightParenthese);
    assert forall|k: int| 0 <= k < la implies ts.subrange(i + 1, i + 1 + la)[k] == ra[k] by {
        assert(ts.subrange(i + 1, i + 1 + la)[k] == ts[i + 1 + k]);
        assert(ts[i + 1 + k] == rt[1 + k]);
        assert(rt[1 + k] == cat[1 + k]);
        assert(cat[1 + k] == ra[k]);
    }
    assert(ts.subrange(i + 1, i + 1 + la) =~= ra);
    assert forall|k: int| 0 <= k < lb implies ts.subrange(p + 1, p + 1 + lb)[k] == rb[k] by {
        assert(ts.subrange(p + 1, p + 1 + lb)[k] == ts[p + 1 + k]);
        assert(ts[p + 1 + k] == rt[2 + la + k]);
        assert(rt[2 + la + k] == cat[2 + la + k]);
        assert(cat[2 + la + k] == rb[k]);
    }
    assert(ts.subrange(p + 1, p + 1 + lb) =~= rb);
    lemma_parse_atom_rt(a, ts, i + 1);
    lemma_parse_atom_rt(b, ts, p + 1);
    assert(ts[i + 1] == ra[0]);
    assert(ts[p + 1] == rb[0]);
    assert(sp_parse_neg(ts, i + 1) == Ok::<_, ParseError>((a, p)));
    assert(sp_parse_neg(ts, p + 1) == Ok::<_, ParseError>((b, q)));
    if c is Conjunction {
        assert(sp_parse_conj_rest(ts, q, ClaimModel::Conjunction(Box::new(a), Box::new(b)))
            == Ok::<_, ParseError>((c, q)));
        assert(sp_parse_conj_rest(ts, p, a) == Ok::<_, ParseError>((c, q)));
        assert(sp_parse_conj(ts, i + 1) == Ok::<_, ParseError>((c, q)));
        assert(sp_parse_disj_rest(ts, q, c) == Ok::<_, ParseError>((c, q)));
        assert(sp_parse_disj(ts, i + 1) == Ok::<_, ParseError>((c, q)));
        assert(sp_parse_imp(ts, i + 1) == Ok::<_, ParseError>((c, q)));
    } else if c is Disjunction {
        assert(sp_parse_conj_rest(ts, p, a) == Ok::<_, ParseError>((a, p)));
        assert(sp_parse_conj(ts, i + 1) == Ok::<_, ParseError>((a, p)));
        assert(sp_parse_conj_rest(ts, q, b) == Ok::<_, ParseError>((b, q)));
        assert(sp_parse_conj(ts, p + 1) == Ok::<_, ParseError>((b, q)));
        assert(sp_parse_disj_rest(ts, q, ClaimModel::Disjunction(Box::new(a), Box::new(b)))
            == Ok::<_, ParseError>((c, q)));
        assert(sp_parse_disj_rest(ts, p, a) == Ok::<_, ParseError>((c, q)));
        assert(sp_parse_disj(ts, i + 1) == Ok::<_, ParseError>((c, q)));
        assert(sp_parse_imp(ts, i + 1) == Ok::<_, ParseError>((c, q)));
    } else {
        assert(sp_parse_conj_rest(ts, p, a) == Ok::<_, ParseError>((a, p)));
        assert(sp_parse_conj(ts, i + 1) == Ok::<_, ParseError>((a, p)));
        assert(sp_parse_disj_rest(ts, p, a) == Ok::<_, ParseError>((a, p)));
        assert(sp_parse_disj(ts, i + 1) == Ok::<_, ParseError>((a, p)));
        assert(sp_parse_conj_rest(ts, q, b) == Ok::<_, ParseError>((b, q)));
        assert(sp_parse_conj(ts, p + 1) == Ok::<_, ParseError>((b, q)));
        assert(sp_parse_disj_rest(ts, q, b) == Ok::<_, ParseError>((b, q)));
        assert(sp_parse_disj(ts, p + 1) == Ok::<_, ParseError>((b, q)));
        assert(sp_parse_imp(ts, p + 1) == Ok::<_, ParseError>((b, q)));
        assert(sp_parse_imp(ts, i + 1) == Ok::<_, ParseError>((c, q)));
    }
    assert(sp_parse_atom(ts, i) == Ok::<_, ParseError>((c, q + 1)));
}

/// Round trip: rendering a claim to fully parenthesized text and
/// re-parsing it yields a structurally equal claim - for every claim
/// whose literals are `Bool` and whose identifiers are nonempty ASCII
/// letter runs spelling no reserved keyword.
pub proof fn lemma_render_parse_round_trip(c: ClaimModel)
    requires
        claim_wf(c),
    ensures
        sp_parse_text(sp_render(c)) == Ok::<ClaimModel, ParseError>(c),
{
    lemma_tokenize_render(c, Seq::<char>::empty());
    assert(sp_render(c) + Seq::<char>::empty() =~= sp_render(c));
    let ts = sp_render_tokens(c);
    assert(sp_tokenize_claim(Seq::<char>::empty()) == Ok::<_, ParseError>(
        Seq::<ClaimTokenModel>::empty(),
    ));
    assert(ts + Seq::<ClaimTokenModel>::empty() =~= ts);
    assert(sp_tokenize_claim(sp_render(c)) == Ok::<_, ParseError>(ts));
    lemma_rt_first(c);
    assert(ts.subrange(0, ts.len() as int) =~= ts);
    lemma_parse_atom_rt(c, ts, 0);
    let ln = ts.len() as int;
    assert(ts[0] == ts.subrange(0, ln)[0]);
    assert(sp_parse_neg(ts, 0) == Ok::<_, ParseError>((c, ln)));
    assert(sp_parse_conj_rest(ts, ln, c) == Ok::<_, ParseError>((c, ln)));
    assert(sp_parse_conj(ts, 0) == Ok::<_, ParseError>((c, ln)));
    assert(sp_parse_disj_rest(ts, ln, c) == Ok::<_, ParseError>((c, ln)));
    assert(sp_parse_disj(ts, 0) == Ok::<_, ParseError>((c, ln)));
    assert(sp_parse_imp(ts, 0) == Ok::<_, ParseError>((c, ln)));
    assert(sp_parse_claim(ts) == Ok::<ClaimModel, ParseError>(c));
}

} // verus!
