//! A character stream over line-structured text that collapses runs of
//! spaces into one space and runs of newlines into one newline.
use vstd::prelude::*;

verus! {

/// The mathematical state of the stream: the current line, the position in
/// it, the text not yet broken into lines, and the current line number.
#[verifier::ext_equal]
pub struct StreamModel {
    pub line: Seq<char>,
    pub index: int,
    pub pending: Seq<char>,
    pub line_number: int,
}

/// Splits a text at its first newline: the first component is the leading
/// line including its `'\n'` (or the whole text if it has none), the second
/// is everything after it.
pub open spec fn first_line_split(s: Seq<char>) -> (Seq<char>, Seq<char>)
    decreases s.len(),
{
    if s.len() == 0 {
        (Seq::<char>::empty(), Seq::<char>::empty())
    } else if s[0] == '\n' {
        (seq!['\n'], s.skip(1))
    } else {
        let (l, r) = first_line_split(s.skip(1));
        (seq![s[0]] + l, r)
    }
}

/// The split never grows the remainder: reading a line off a nonempty text
/// consumes at least one character.
pub proof fn lemma_first_line_split_len(s: Seq<char>)
    ensures
        first_line_split(s).0.len() + first_line_split(s).1.len() == s.len(),
        s.len() > 0 ==> first_line_split(s).0.len() >= 1,
    decreases s.len(),
{
    if s.len() == 0 {
    } else if s[0] == '\n' {
    } else {
        lemma_first_line_split_len(s.skip(1));
    }
}

/// Where the first newline stands (or the text's end), there the split is.
pub proof fn lemma_first_line_split_at(s: Seq<char>, j: int)
    requires
        0 <= j <= s.len(),
        forall|k: int| 0 <= k < j ==> s[k] != '\n',
        j < s.len() ==> s[j] == '\n',
    ensures
        ({
            let end = if j < s.len() {
                j + 1
            } else {
                j
            };
            first_line_split(s) == (s.take(end), s.skip(end))
        }),
    decreases j,
{
    let end: int = if j < s.len() {
        j + 1
    } else {
        j
    };
    if j == 0 {
        if s.len() == 0 {
            assert(first_line_split(s).0 =~= s.take(0));
            assert(first_line_split(s).1 =~= s.skip(0));
        } else {
            assert(first_line_split(s).0 =~= s.take(1));
        }
    } else {
        lemma_first_line_split_at(s.skip(1), j - 1);
        let sub = s.skip(1);
        let end1: int = if j - 1 < sub.len() {
            j
        } else {
            j - 1
        };
        assert(seq![s[0]] + sub.take(end1) =~= s.take(end));
        assert(sub.skip(end1) =~= s.skip(end));
    }
}

/// A stream with the whitespace-collapsing behaviour of the proof reader.
pub struct RepeatsNoWhiteSpace {
    /// The characters of the line being read.
    pub current_chars: Vec<char>,
    /// Text that has not yet been broken into lines.
    pub pending: Vec<char>,
    /// The number of the current line, starting at 1.
    pub line_number: usize,
    /// The position within the current line.
    pub char_index: usize,
}

impl View for RepeatsNoWhiteSpace {
    type V = StreamModel;

    open spec fn view(&self) -> StreamModel {
        StreamModel {
            line: self.current_chars@,
            index: self.char_index as int,
            pending: self.pending@,
            line_number: self.line_number as int,
        }
    }
}

/// What `get` yields: the character under the cursor, if any.
pub open spec fn sp_get(st: StreamModel) -> Option<char> {
    if 0 <= st.index < st.line.len() {
        Some(st.line[st.index])
    } else {
        None
    }
}

/// What `take` does: yield the character under the cursor and move past it.
pub open spec fn sp_take(st: StreamModel) -> (Option<char>, StreamModel) {
    match sp_get(st) {
        None => (None, st),
        Some(c) => (Some(c), StreamModel { index: st.index + 1, ..st }),
    }
}

/// What `read_line` does: load the next pending line and reset the cursor.
pub open spec fn sp_read_line(st: StreamModel) -> StreamModel {
    let (l, r) = first_line_split(st.pending);
    StreamModel { line: l, index: 0, pending: r, line_number: st.line_number + 1 }
}

/// The rest of a space run is skipped; the single `' '` is yielded at its
/// end, unless the line ends first.
pub open spec fn sp_skip_spaces(st: StreamModel) -> (Option<char>, StreamModel)
    decreases st.line.len() - st.index,
{
    match sp_get(st) {
        None => (None, st),
        Some(c) => {
            if c == ' ' {
                sp_skip_spaces(StreamModel { index: st.index + 1, ..st })
            } else {
                (Some(' '), st)
            }
        },
    }
}

/// The rest of a newline run is skipped, reading further lines as needed;
/// the single `'\n'` is yielded at its end, unless the text ends first.
pub open spec fn sp_skip_newlines(st: StreamModel) -> (Option<char>, StreamModel)
    decreases st.pending.len(), st.line.len() - st.index,
{
    match sp_get(st) {
        None => {
            if st.pending.len() == 0 {
                (None, sp_read_line(st))
            } else {
                let st2 = sp_read_line(st);
                if st2.pending.len() < st.pending.len() {
                    sp_skip_newlines(st2)
                } else {
                    (None, st)  // unreachable: a nonempty pending always shrinks
                }
            }
        },
        Some(c) => {
            if c == '\n' {
                sp_skip_newlines(StreamModel { index: st.index + 1, ..st })
            } else {
                (Some('\n'), st)
            }
        },
    }
}

/// What `next` does: take one character; a space begins a collapsed space
/// run, a newline a collapsed newline run.
pub open spec fn sp_next(st: StreamModel) -> (Option<char>, StreamModel) {
    let (c, st1) = sp_take(st);
    match c {
        None => (None, st1),
        Some(' ') => sp_skip_spaces(st1),
        Some('\n') => sp_skip_newlines(st1),
        Some(c) => (Some(c), st1),
    }
}

/// Collects the characters of a string slice into a vector.
pub fn chars_of(s: &str) -> (v: Vec<char>)
    ensures
        v@ == s@,
{
    let n = s.unicode_len();
    let mut v: Vec<char> = Vec::new();
    let mut i: usize = 0;
    while i < n
        invariant
            i <= n,
            n == s@.len(),
            v@ == s@.take(i as int),
        decreases n - i,
    {
        v.push(s.get_char(i));
        proof {
            assert(v@ =~= s@.take(i + 1));
        }
        i = i + 1;
    }
    proof {
        assert(v@ =~= s@);
    }
    v
}

impl RepeatsNoWhiteSpace {
    /// Opens a stream over the given text, loading its first line.
    pub fn new(input: &str) -> (s: Self)
        ensures
            s@ == sp_read_line(
                StreamModel {
                    line: Seq::<char>::empty(),
                    index: 0,
                    pending: input@,
                    line_number: 0,
                },
            ),
    {
        let pending = chars_of(input);
        let mut s = RepeatsNoWhiteSpace {
            current_chars: Vec::new(),
            pending,
            line_number: 0,
            char_index: 0,
        };
        s.read_line();
        s
    }

    /// Peeks at the character under the cursor without consuming it.
    pub fn get(&self) -> (c: Option<char>)
        ensures
            c == sp_get(self@),
    {
        if self.char_index < self.current_chars.len() {
            Some(self.current_chars[self.char_index])
        } else {
            None
        }
    }

    /// Yields the character under the cursor and moves past it.
    pub fn take(&mut self) -> (c: Option<char>)
        ensures
            (c, final (self)@) == sp_take(old(self)@),
    {
        if self.char_index < self.current_chars.len() {
            let c = self.current_chars[self.char_index];
            self.char_index = self.char_index + 1;
            Some(c)
        } else {
            None
        }
    }

    /// Loads the next pending line as the current line, resetting the
    /// cursor; yields how many characters the new line holds.
    pub fn read_line(&mut self) -> (n: usize)
        requires
            old(self)@.line_number < usize::MAX as int,
        ensures
            final (self)@ == sp_read_line(old(self)@),
            n == final (self)@.line.len(),
    {
        let ghost p = self.pending@;
        let mut j: usize = 0;
        while j < self.pending.len() && self.pending[j] != '\n'
            invariant
                j <= p.len(),
                self.pending@ == p,
                forall|k: int| 0 <= k < j ==> p[k] != '\n',
            decreases p.len() - j,
        {
            j = j + 1;
        }
        let end = if j < self.pending.len() {
            j + 1
        } else {
            j
        };
        proof {
            lemma_first_line_split_at(p, j as int);
        }
        let mut line: Vec<char> = Vec::new();
        let mut k: usize = 0;
        while k < end
            invariant
                k <= end,
                end <= self.pending@.len(),
                self.pending@ == p,
                line@ == p.take(k as int),
            decreases end - k,
        {
            line.push(self.pending[k]);
            proof {
                assert(line@ =~= p.take(k + 1));
            }
            k = k + 1;
        }
        let mut rest: Vec<char> = Vec::new();
        let mut k2: usize = end;
        while k2 < self.pending.len()
            invariant
                end <= k2 <= p.len(),
                self.pending@ == p,
                rest@ == p.subrange(end as int, k2 as int),
            decreases p.len() - k2,
        {
            rest.push(self.pending[k2]);
            proof {
                assert(rest@ =~= p.subrange(end as int, k2 + 1));
            }
            k2 = k2 + 1;
        }
        proof {
            assert(rest@ =~= p.skip(end as int));
        }
        let n = line.len();
        self.current_chars = line;
        self.pending = rest;
        self.line_number = self.line_number + 1;
        self.char_index = 0;
        n
    }

    /// Yields the next character, collapsing each run of spaces to one
    /// space and each run of newlines (across lines) to one newline.
    pub fn next(&mut self) -> (c: Option<char>)
        requires
            old(self)@.line_number + old(self)@.pending.len() + 1 < usize::MAX as int,
        ensures
            (c, final (self)@) == sp_next(old(self)@),
    {
        let first = match self.take() {
            None => {
                return None;
            },
            Some(c) => c,
        };
        if first == ' ' {
            let ghost st0 = self@;
            loop
                invariant
                    sp_skip_spaces(self@) == sp_skip_spaces(st0),
                    self@.pending == st0.pending,
                    self@.line == st0.line,
                    self@.line_number == st0.line_number,
                    sp_next(old(self)@) == sp_skip_spaces(st0),
                    self@.index <= self@.line.len(),
                decreases self@.line.len() - self@.index,
            {
                match self.get() {
                    None => {
                        return None;
                    },
                    Some(c) => {
                        if c == ' ' {
                            proof {
                                assert(self.current_chars.len() == self@.line.len());
                            }
                            self.char_index = self.char_index + 1;
                        } else {
                            return Some(' ');
                        }
                    },
                }
            }
        } else if first == '\n' {
            let ghost st0 = self@;
            let ghost bound = st0.line_number + st0.pending.len();
            loop
                invariant
                    sp_skip_newlines(self@) == sp_skip_newlines(st0),
                    sp_next(old(self)@) == sp_skip_newlines(st0),
                    self@.line_number + self@.pending.len() <= bound,
                    bound + 1 < usize::MAX as int,
                    self@.line_number >= 0,
                decreases self@.pending.len(), self@.line.len() - self@.index,
            {
                match self.get() {
                    None => {
                        proof {
                            lemma_first_line_split_len(self@.pending);
                        }
                        if self.pending.len() == 0 {
                            self.read_line();
                            return None;
                        } else {
                            self.read_line();
                        }
                    },
                    Some(c) => {
                        if c == '\n' {
                            proof {
                                assert(self.current_chars.len() == self@.line.len());
                            }
                            self.char_index = self.char_index + 1;
                        } else {
                            return Some('\n');
                        }
                    },
                }
            }
        } else {
            Some(first)
        }
    }
}

} // verus!
