//! Tokens of the arithmetic claim language, and the tokenizer that reads
//! them off a whitespace-collapsing character stream.
use vstd::prelude::*;

verus! {

use core::cmp::Ordering;
use crate::repeats_no_whitespace::{
    RepeatsNoWhiteSpace,
    StreamModel,
    sp_get,
    sp_next,
    sp_read_line,
    sp_skip_newlines,
    sp_skip_spaces,
    sp_take,
    lemma_first_line_split_len,
};

#[derive(Debug, Clone, Copy, PartialEq, Eq, Structural)]
pub enum TokenKind {
    // Literals
    Z(isize),
    B(bool),
    // Operators
    Or,
    And,
    Less,
    LessEquals,
    Greater,
    GreaterEquals,
    Equals,
    NotEquals,
    Not,
    Plus,
    Minus,
    Multiply,
    Modulus,
    Divide,
    Negate,
    // Separators
    Newline,
    LeftParentheses,
    RightParentheses,
}

/// A classified token with its character span in the current line.
#[derive(Debug, Clone, Copy, PartialEq, Eq, Structural)]
pub struct Token {
    pub kind: TokenKind,
    pub start: usize,
    pub end: usize,
}

impl Token {
    pub fn new(kind: TokenKind, start: usize, end: usize) -> (t: Self)
        ensures
            t == (Token { kind, start, end }),
    {
        Self { kind, start, end }
    }

    pub open spec fn spec_is_operator(self) -> bool {
        match self.kind {
            TokenKind::Or => true,
            TokenKind::And => true,
            TokenKind::Less => true,
            TokenKind::LessEquals => true,
            TokenKind::Greater => true,
            TokenKind::GreaterEquals => true,
            TokenKind::Equals => true,
            TokenKind::NotEquals => true,
            TokenKind::Not => true,
            TokenKind::Plus => true,
            TokenKind::Minus => true,
            TokenKind::Multiply => true,
            TokenKind::Divide => true,
            TokenKind::Modulus => true,
            TokenKind::Negate => true,
            _ => false,
        }
    }

    pub fn is_operator(&self) -> (r: bool)
        ensures
            r == self.spec_is_operator(),
    {
        match self.kind {
            TokenKind::Z(_) => false,
            TokenKind::B(_) => false,
            TokenKind::Newline => false,
            TokenKind::LeftParentheses => false,
            TokenKind::RightParentheses => false,
            _ => true,
        }
    }

    /// The binding strength of an operator token; a larger number binds
    /// tighter.
    pub open spec fn spec_operator_precedence(self) -> int {
        match self.kind {
            TokenKind::Or => 0,
            TokenKind::And => 1,
            TokenKind::Less => 2,
            TokenKind::LessEquals => 2,
            TokenKind::Greater => 2,
            TokenKind::GreaterEquals => 2,
            TokenKind::Equals => 3,
            TokenKind::NotEquals => 3,
            TokenKind::Not => 3,
            TokenKind::Plus => 4,
            TokenKind::Minus => 4,
            TokenKind::Multiply => 5,
            TokenKind::Divide => 5,
            TokenKind::Modulus => 5,
            TokenKind::Negate => 6,
            _ => 7,
        }
    }

    pub fn operator_precedence(&self) -> (p: usize)
        requires
            self.spec_is_operator(),
        ensures
            p == self.spec_operator_precedence(),
    {
        match self.kind {
            TokenKind::Or => 0,
            TokenKind::And => 1,
            TokenKind::Less => 2,
            TokenKind::LessEquals => 2,
            TokenKind::Greater => 2,
            TokenKind::GreaterEquals => 2,
            TokenKind::Equals => 3,
            TokenKind::NotEquals => 3,
            TokenKind::Not => 3,
            TokenKind::Plus => 4,
            TokenKind::Minus => 4,
            TokenKind::Multiply => 5,
            TokenKind::Divide => 5,
            TokenKind::Modulus => 5,
            TokenKind::Negate => 6,
            _ => {
                proof {
                    assert(false);
                }
                7
            },
        }
    }

    /// How this operator token's binding strength compares with another's.
    pub fn precedes(&self, other: &Self) -> (r: Ordering)
        requires
            self.spec_is_operator(),
            other.spec_is_operator(),
        ensures
            r == Ordering::Less <==> self.spec_operator_precedence()
                < other.spec_operator_precedence(),
            r == Ordering::Equal <==> self.spec_operator_precedence()
                == other.spec_operator_precedence(),
            r == Ordering::Greater <==> self.spec_operator_precedence()
                > other.spec_operator_precedence(),
    {
        let a = self.operator_precedence();
        let b = other.operator_precedence();
        if a < b {
            Ordering::Less
        } else if a == b {
            Ordering::Equal
        } else {
            Ordering::Greater
        }
    }

    pub fn is_unary(&self) -> (r: bool)
        ensures
            r == (self.kind == TokenKind::Not || self.kind == TokenKind::Negate),
    {
        match self.kind {
            TokenKind::Not => true,
            TokenKind::Negate => true,
            _ => false,
        }
    }

    pub fn is_double_width(&self) -> (r: bool)
        ensures
            r == (self.kind == TokenKind::LessEquals || self.kind == TokenKind::GreaterEquals
                || self.kind == TokenKind::Equals || self.kind == TokenKind::NotEquals),
    {
        match self.kind {
            TokenKind::LessEquals => true,
            TokenKind::GreaterEquals => true,
            TokenKind::Equals => true,
            TokenKind::NotEquals => true,
            _ => false,
        }
    }
}

pub open spec fn sp_is_digit(c: char) -> bool {
    48 <= c as u32 && c as u32 <= 57
}

pub open spec fn sp_digit(c: char) -> int {
    c as u32 - 48
}

fn is_digit_char(c: char) -> (r: bool)
    ensures
        r == sp_is_digit(c),
{
    let u = c as u32;
    48 <= u && u <= 57
}

/// Where the run of digits beginning at `i` ends.
pub open spec fn digit_run_end(line: Seq<char>, i: int) -> int
    decreases line.len() - i,
{
    if i < line.len() && 0 <= i && sp_is_digit(line[i]) {
        digit_run_end(line, i + 1)
    } else {
        i
    }
}

/// The value of the digits `line[s..j]`, read in base ten.
pub open spec fn digits_val(line: Seq<char>, s: int, j: int) -> int
    decreases j - s,
{
    if j <= s {
        0
    } else {
        digits_val(line, s, j - 1) * 10 + sp_digit(line[j - 1])
    }
}

proof fn lemma_digit_run_bounds(line: Seq<char>, i: int)
    requires
        0 <= i <= line.len(),
    ensures
        i <= digit_run_end(line, i) <= line.len(),
        forall|k: int| i <= k < digit_run_end(line, i) ==> sp_is_digit(line[k]),
        digit_run_end(line, i) < line.len() ==> !sp_is_digit(line[digit_run_end(line, i)]),
    decreases line.len() - i,
{
    if i < line.len() && sp_is_digit(line[i]) {
        lemma_digit_run_bounds(line, i + 1);
    }
}

proof fn lemma_digits_val_mono(line: Seq<char>, s: int, i: int, j: int)
    requires
        s <= i <= j,
        forall|k: int| s <= k < j ==> 0 <= #[trigger] sp_digit(line[k]),
    ensures
        0 <= digits_val(line, s, i) <= digits_val(line, s, j),
    decreases j - i,
{
    if i == j {
        lemma_digits_val_nonneg(line, s, i);
    } else {
        lemma_digits_val_mono(line, s, i, j - 1);
    }
}

proof fn lemma_digits_val_nonneg(line: Seq<char>, s: int, j: int)
    requires
        forall|k: int| s <= k < j ==> 0 <= #[trigger] sp_digit(line[k]),
    ensures
        digits_val(line, s, j) >= 0,
    decreases j - s,
{
    if j > s {
        lemma_digits_val_nonneg(line, s, j - 1);
    }
}

/// What tokenizing an integer does: the maximal digit run under the cursor
/// becomes one `Z` token, and the cursor moves past it. Undefined where no
/// digit stands under the cursor or the value would not fit.
pub open spec fn sp_tok_int(st: StreamModel) -> Option<(Token, StreamModel)> {
    let start = st.index;
    let end = digit_run_end(st.line, st.index);
    let val = digits_val(st.line, start, end);
    if 0 <= start && start < st.line.len() && sp_is_digit(st.line[start]) && val
        <= isize::MAX as int && end <= usize::MAX as int {
        Some(
            (
                Token { kind: TokenKind::Z(val as isize), start: start as usize, end: end as usize },
                StreamModel { index: end, ..st },
            ),
        )
    } else {
        None
    }
}

/// What tokenizing an operator does: one character is consumed, a second is
/// peeked at, and the operator they spell becomes one token. Undefined on
/// text that spells no operator.
pub open spec fn sp_tok_op(st: StreamModel) -> Option<(Token, StreamModel)> {
    let start = st.index;
    let (first, st1) = sp_next(st);
    let second = sp_get(st1);
    if 0 <= start && start + 2 <= usize::MAX as int {
        match (first, second) {
            (Some('\u{2228}'), _) => Some(
                (
                    Token { kind: TokenKind::Or, start: start as usize, end: (start + 1) as usize },
                    st1,
                ),
            ),
            (Some('\u{2227}'), _) => Some(
                (
                    Token { kind: TokenKind::And, start: start as usize, end: (start + 1) as usize },
                    st1,
                ),
            ),
            (Some('^'), _) => Some(
                (
                    Token {
                        kind: TokenKind::Less,
                        start: start as usize,
                        end: (start + 1) as usize,
                    },
                    st1,
                ),
            ),
            (Some('<'), Some('=')) => Some(
                (
                    Token {
                        kind: TokenKind::LessEquals,
                        start: start as usize,
                        end: (start + 2) as usize,
                    },
                    st1,
                ),
            ),
            (Some('<'), _) => Some(
                (
                    Token {
                        kind: TokenKind::Greater,
                        start: start as usize,
                        end: (start + 1) as usize,
                    },
                    st1,
                ),
            ),
            (Some('>'), Some('=')) => Some(
                (
                    Token {
                        kind: TokenKind::GreaterEquals,
                        start: start as usize,
                        end: (start + 2) as usize,
                    },
                    st1,
                ),
            ),
            (Some('='), Some('=')) => Some(
                (
                    Token {
                        kind: TokenKind::Equals,
                        start: start as usize,
                        end: (start + 2) as usize,
                    },
                    st1,
                ),
            ),
            (Some('!'), Some('=')) => Some(
                (
                    Token {
                        kind: TokenKind::NotEquals,
                        start: start as usize,
                        end: (start + 2) as usize,
                    },
                    st1,
                ),
            ),
            (Some('!'), _) => Some(
                (
                    Token { kind: TokenKind::Not, start: start as usize, end: (start + 1) as usize },
                    st1,
                ),
            ),
            (Some('+'), _) => Some(
                (
                    Token {
                        kind: TokenKind::Plus,
                        start: start as usize,
                        end: (start + 1) as usize,
                    },
                    st1,
                ),
            ),
            (Some('*'), _) => Some(
                (
                    Token {
                        kind: TokenKind::Multiply,
                        start: start as usize,
                        end: (start + 1) as usize,
                    },
                    st1,
                ),
            ),
            (Some('/'), _) => Some(
                (
                    Token {
                        kind: TokenKind::Divide,
                        start: start as usize,
                        end: (start + 1) as usize,
                    },
                    st1,
                ),
            ),
            (Some('%'), _) => Some(
                (
                    Token {
                        kind: TokenKind::Modulus,
                        start: start as usize,
                        end: (start + 1) as usize,
                    },
                    st1,
                ),
            ),
            (Some('-'), _) => Some(
                (
                    Token {
                        kind: TokenKind::Negate,
                        start: start as usize,
                        end: (start + 1) as usize,
                    },
                    st1,
                ),
            ),
            _ => None,
        }
    } else {
        None
    }
}

/// What tokenizing a separator does: one parenthesis or newline is consumed
/// and becomes one token. Undefined on other text.
pub open spec fn sp_tok_sep(st: StreamModel) -> Option<(Token, StreamModel)> {
    let start = st.index;
    let (first, st1) = sp_next(st);
    if 0 <= start && start + 1 <= usize::MAX as int {
        match first {
            Some('(') => Some(
                (
                    Token {
                        kind: TokenKind::LeftParentheses,
                        start: start as usize,
                        end: (start + 1) as usize,
                    },
                    st1,
                ),
            ),
            Some(')') => Some(
                (
                    Token {
                        kind: TokenKind::RightParentheses,
                        start: start as usize,
                        end: (start + 1) as usize,
                    },
                    st1,
                ),
            ),
            Some('\n') => Some(
                (
                    Token {
                        kind: TokenKind::Newline,
                        start: start as usize,
                        end: (start + 1) as usize,
                    },
                    st1,
                ),
            ),
            _ => None,
        }
    } else {
        None
    }
}

/// How much text is left to read: the pending text plus the rest of the
/// current line.
pub open spec fn stream_rem(st: StreamModel) -> int {
    st.pending.len() + if st.index < st.line.len() {
        st.line.len() - st.index
    } else {
        0
    }
}

/// The line count plus the pending length; reading never grows it by more
/// than the final empty read.
pub open spec fn stream_sum(st: StreamModel) -> int {
    st.line_number + st.pending.len()
}

proof fn lemma_skip_spaces_state(st: StreamModel)
    ensures
        ({
            let r = sp_skip_spaces(st).1;
            r.line == st.line && r.pending == st.pending && r.line_number == st.line_number
                && r.index >= st.index
        }),
    decreases st.line.len() - st.index,
{
    match sp_get(st) {
        None => {},
        Some(c) => {
            if c == ' ' {
                lemma_skip_spaces_state(StreamModel { index: st.index + 1, ..st });
            }
        },
    }
}

proof fn lemma_skip_newlines_state(st: StreamModel)
    ensures
        ({
            let r = sp_skip_newlines(st).1;
            stream_rem(r) <= stream_rem(st) && stream_sum(r) <= stream_sum(st) + 1 && (sp_get(r)
                is Some ==> stream_sum(r) <= stream_sum(st))
        }),
    decreases st.pending.len(), st.line.len() - st.index,
{
    match sp_get(st) {
        None => {
            lemma_first_line_split_len(st.pending);
            if st.pending.len() == 0 {
            } else {
                let st2 = sp_read_line(st);
                if st2.pending.len() < st.pending.len() {
                    lemma_skip_newlines_state(st2);
                }
            }
        },
        Some(c) => {
            if c == '\n' {
                lemma_skip_newlines_state(StreamModel { index: st.index + 1, ..st });
            }
        },
    }
}

/// One `next` consumes text: it shrinks the remaining text, and can only
/// grow the line count by its final empty read.
pub proof fn lemma_next_progress(st: StreamModel)
    requires
        sp_get(st) is Some,
    ensures
        stream_rem(sp_next(st).1) < stream_rem(st),
        stream_sum(sp_next(st).1) <= stream_sum(st) + 1,
        sp_get(sp_next(st).1) is Some ==> stream_sum(sp_next(st).1) <= stream_sum(st),
{
    let (c, st1) = sp_take(st);
    match c {
        None => {},
        Some(' ') => {
            lemma_skip_spaces_state(st1);
        },
        Some('\n') => {
            lemma_skip_newlines_state(st1);
        },
        Some(_) => {},
    }
}

pub open spec fn cons_tok(t: Token, rest: Option<Seq<Token>>) -> Option<Seq<Token>> {
    match rest {
        Some(ts) => Some(seq![t] + ts),
        None => None,
    }
}

/// What `tokenize` yields from a stream state: the classified tokens of
/// everything left to read. `None` where the text spells no token, an
/// integer overflows, or a separator run hits the text's end.
pub open spec fn sp_tokenize(st: StreamModel) -> Option<Seq<Token>>
    decreases stream_rem(st),
    via sp_tokenize_dec
{
    match sp_get(st) {
        None => Some(Seq::<Token>::empty()),
        Some(c) => {
            if c == ' ' {
                sp_tokenize(sp_next(st).1)
            } else if c == '\n' || c == '(' || c == ')' {
                match sp_tok_sep(st) {
                    Some(r) => cons_tok(r.0, sp_tokenize(r.1)),
                    None => None,
                }
            } else if c == '\u{2228}' || c == '\u{2227}' || c == '^' || c == '+' || c == '-' || c
                == '*' || c == '/' {
                match sp_tok_op(st) {
                    Some(r) => cons_tok(r.0, sp_tokenize(r.1)),
                    None => None,
                }
            } else if sp_is_digit(c) {
                match sp_tok_int(st) {
                    Some(r) => cons_tok(r.0, sp_tokenize(r.1)),
                    None => None,
                }
            } else {
                None
            }
        },
    }
}

#[via_fn]
proof fn sp_tokenize_dec(st: StreamModel) {
    match sp_get(st) {
        None => {},
        Some(c) => {
            lemma_next_progress(st);
            if c == ' ' {
            } else if c == '\n' || c == '(' || c == ')' {
            } else if c == '\u{2228}' || c == '\u{2227}' || c == '^' || c == '+' || c == '-' || c
                == '*' || c == '/' {
            } else if sp_is_digit(c) {
                lemma_digit_run_bounds(st.line, st.index);
            }
        },
    }
}

/// Reads the maximal digit run under the cursor as one integer token.
pub fn tokenize_integer(reader: &mut RepeatsNoWhiteSpace) -> (t: Token)
    requires
        sp_tok_int(old(reader)@) is Some,
        old(reader)@.line_number + old(reader)@.pending.len() + 1 < usize::MAX as int,
    ensures
        Some((t, final (reader)@)) == sp_tok_int(old(reader)@),
{
    let ghost st0 = old(reader)@;
    let ghost line = st0.line;
    let ghost end = digit_run_end(line, st0.index);
    proof {
        lemma_digit_run_bounds(line, st0.index);
    }
    let start = reader.char_index;
    let mut val: isize = 0;
    loop
        invariant
            reader@.line == line,
            reader@.pending == st0.pending,
            reader@.line_number == st0.line_number,
            st0.index == start as int,
            start as int <= reader@.index <= end,
            end == digit_run_end(line, st0.index),
            forall|k: int| st0.index <= k < end ==> sp_is_digit(line[k]),
            end < line.len() ==> !sp_is_digit(line[end]),
            end <= line.len(),
            val == digits_val(line, start as int, reader@.index),
            digits_val(line, start as int, end) <= isize::MAX as int,
            st0.line_number + st0.pending.len() + 1 < usize::MAX as int,
        ensures
            reader@.line == line,
            reader@.pending == st0.pending,
            reader@.line_number == st0.line_number,
            reader@.index == end,
            val == digits_val(line, start as int, end),
        decreases end - reader@.index,
    {
        let c = match reader.get() {
            Some(c) => c,
            None => {
                break ;
            },
        };
        if !is_digit_char(c) {
            proof {
                if reader@.index < end {
                    assert(sp_is_digit(line[reader@.index]));
                }
            }
            break ;
        }
        proof {
            if reader@.index == end {
                assert(end < line.len());
                assert(!sp_is_digit(line[end]));
            }
            assert(reader@.index < end);
            assert forall|k: int| start as int <= k < end implies 0 <= #[trigger] sp_digit(
                line[k],
            ) by {
                assert(sp_is_digit(line[k]));
            }
            lemma_digits_val_mono(line, start as int, reader@.index + 1, end);
        }
        reader.next();
        let d = (c as u32 - 48) as isize;
        val = val * 10 + d;
    }
    let end_pos = reader.char_index;
    Token::new(TokenKind::Z(val), start, end_pos)
}

/// Reads one operator off the stream, peeking one character further for the
/// two-character operators.
pub fn tokenize_operator(reader: &mut RepeatsNoWhiteSpace) -> (t: Token)
    requires
        sp_tok_op(old(reader)@) is Some,
        old(reader)@.line_number + old(reader)@.pending.len() + 1 < usize::MAX as int,
    ensures
        Some((t, final (reader)@)) == sp_tok_op(old(reader)@),
{
    let start = reader.char_index;
    let first = reader.next();
    let second = reader.get();
    let (kind, end) = match (first, second) {
        (Some('\u{2228}'), _) => (TokenKind::Or, start + 1),
        (Some('\u{2227}'), _) => (TokenKind::And, start + 1),
        (Some('^'), _) => (TokenKind::Less, start + 1),
        (Some('<'), Some('=')) => (TokenKind::LessEquals, start + 2),
        (Some('<'), _) => (TokenKind::Greater, start + 1),
        (Some('>'), Some('=')) => (TokenKind::GreaterEquals, start + 2),
        (Some('='), Some('=')) => (TokenKind::Equals, start + 2),
        (Some('!'), Some('=')) => (TokenKind::NotEquals, start + 2),
        (Some('!'), _) => (TokenKind::Not, start + 1),
        (Some('+'), _) => (TokenKind::Plus, start + 1),
        (Some('*'), _) => (TokenKind::Multiply, start + 1),
        (Some('/'), _) => (TokenKind::Divide, start + 1),
        (Some('%'), _) => (TokenKind::Modulus, start + 1),
        (Some('-'), _) => (TokenKind::Negate, start + 1),
        _ => {
            proof {
                assert(false);
            }
            (TokenKind::Or, start)
        },
    };
    Token::new(kind, start, end)
}

/// Reads one parenthesis or newline off the stream.
pub fn tokenize_seperator(reader: &mut RepeatsNoWhiteSpace) -> (t: Token)
    requires
        sp_tok_sep(old(reader)@) is Some,
        old(reader)@.line_number + old(reader)@.pending.len() + 1 < usize::MAX as int,
    ensures
        Some((t, final (reader)@)) == sp_tok_sep(old(reader)@),
{
    let start = reader.char_index;
    let kind = match reader.next() {
        Some('(') => TokenKind::LeftParentheses,
        Some(')') => TokenKind::RightParentheses,
        Some('\n') => TokenKind::Newline,
        _ => {
            proof {
                assert(false);
            }
            TokenKind::Newline
        },
    };
    Token::new(kind, start, start + 1)
}

/// Reads the whole stream into tokens, skipping spaces between them.
pub fn tokenize(reader: RepeatsNoWhiteSpace) -> (r: Vec<Token>)
    requires
        sp_tokenize(reader@) is Some,
        reader@.line_number + reader@.pending.len() + 1 < usize::MAX as int,
    ensures
        Some(r@) == sp_tokenize(reader@),
{
    let ghost st_full = reader@;
    let mut rd = reader;
    let mut tokens: Vec<Token> = Vec::new();
    loop
        invariant
            sp_tokenize(rd@) is Some,
            sp_tokenize(st_full) is Some,
            sp_tokenize(st_full).unwrap() == tokens@ + sp_tokenize(rd@).unwrap(),
            sp_get(rd@) is Some ==> stream_sum(rd@) <= stream_sum(st_full),
            stream_sum(st_full) + 1 < usize::MAX as int,
        ensures
            sp_get(rd@) is None,
            sp_tokenize(st_full).unwrap() == tokens@ + sp_tokenize(rd@).unwrap(),
            sp_tokenize(rd@) is Some,
            sp_tokenize(st_full) is Some,
        decreases stream_rem(rd@),
    {
        let c = match rd.get() {
            Some(c) => c,
            None => {
                break ;
            },
        };
        proof {
            lemma_next_progress(rd@);
        }
        if c == ' ' {
            rd.next();
        } else if c == '\n' || c == '(' || c == ')' {
            let t = tokenize_seperator(&mut rd);
            tokens.push(t);
            proof {
                assert(tokens@ + sp_tokenize(rd@).unwrap() =~= sp_tokenize(st_full).unwrap());
            }
        } else if c == '\u{2228}' || c == '\u{2227}' || c == '^' || c == '+' || c == '-' || c == '*'
            || c == '/' {
            let t = tokenize_operator(&mut rd);
            tokens.push(t);
            proof {
                assert(tokens@ + sp_tokenize(rd@).unwrap() =~= sp_tokenize(st_full).unwrap());
            }
        } else if is_digit_char(c) {
            proof {
                lemma_digit_run_bounds(rd@.line, rd@.index);
            }
            let t = tokenize_integer(&mut rd);
            tokens.push(t);
            proof {
                assert(tokens@ + sp_tokenize(rd@).unwrap() =~= sp_tokenize(st_full).unwrap());
            }
        } else {
            proof {
                assert(false);
            }
        }
    }
    proof {
        assert(tokens@ + sp_tokenize(rd@).unwrap() =~= tokens@);
    }
    tokens
}

} // verus!
