use vstd::prelude::*;
use crate::term::{Term, Tree};

verus! {

/// Why a source text is not a term. Positions count characters from the
/// start of the text.
#[derive(PartialEq, Eq, Structural, Debug, Clone, Copy)]
pub enum ParseError {
    /// The text ended where a term or a name was still needed.
    UnexpectedEnd { at: usize },
    /// An application was not closed by `)`.
    MissingClose { at: usize },
    /// A name was needed and none starts here.
    ExpectedName { at: usize },
}

/// The character that opens an abstraction.
pub open spec fn is_lambda(c: char) -> bool {
    c == '\u{3bb}'
}

/// ASCII whitespace.
pub open spec fn is_space(c: char) -> bool {
    c == ' ' || c == '\t' || c == '\n' || c == '\x0C' || c == '\r'
}

/// ASCII letters and digits, and `_ . - / $`.
pub open spec fn is_name_char(c: char) -> bool {
    ||| ('a' <= c && c <= 'z')
    ||| ('A' <= c && c <= 'Z')
    ||| ('0' <= c && c <= '9')
    ||| c == '_'
    ||| c == '.'
    ||| c == '-'
    ||| c == '/'
    ||| c == '$'
}

/// Where the trivia that starts at `p` ends: whitespace, and comments from
/// `//` up to and including the end of the line. `in_comment` says whether
/// `p` lies inside such a comment.
pub open spec fn trivia_end(s: Seq<char>, p: int, in_comment: bool) -> int
    decreases s.len() - p,
{
    if p < 0 || p >= s.len() {
        p
    } else if in_comment {
        trivia_end(s, p + 1, s[p] != '\n')
    } else if is_space(s[p]) {
        trivia_end(s, p + 1, false)
    } else if s[p] == '/' && p + 1 < s.len() && s[p + 1] == '/' {
        trivia_end(s, p + 2, true)
    } else {
        p
    }
}

/// The first position at or after `p` that is not trivia.
pub open spec fn skip_trivia(s: Seq<char>, p: int) -> int {
    trivia_end(s, p, false)
}

/// The end of the run of name characters that starts at `p`.
pub open spec fn name_end(s: Seq<char>, p: int) -> int
    decreases s.len() - p,
{
    if 0 <= p < s.len() && is_name_char(s[p]) {
        name_end(s, p + 1)
    } else {
        p
    }
}

/// The term that starts at `p` in `s`, and the position after it.
///
/// An abstraction is the lambda character, a name and a term; an application
/// is `(`, two terms and `)`; anything else is a variable's name. Trivia may
/// stand before each token. The tests of a position against `p` and against
/// the text's length never fail for a position within the text (see the
/// bounds lemmas below): they only make the recursion's progress visible.
pub open spec fn parse_at(s: Seq<char>, p: int) -> Result<(Tree, int), ParseError>
    decreases s.len() - p,
{
    let q = skip_trivia(s, p);
    if p < 0 || p > s.len() || q < p || q >= s.len() {
        Err(ParseError::UnexpectedEnd { at: q as usize })
    } else if is_lambda(s[q]) {
        let n0 = skip_trivia(s, q + 1);
        let n1 = name_end(s, n0);
        if n0 >= s.len() {
            Err(ParseError::UnexpectedEnd { at: n0 as usize })
        } else if n1 <= n0 || n1 <= p || n1 > s.len() {
            Err(ParseError::ExpectedName { at: n0 as usize })
        } else {
            match parse_at(s, n1) {
                Ok((body, e)) => Ok(
                    (Tree::Lam { name: s.subrange(n0, n1), body: Box::new(body) }, e),
                ),
                Err(x) => Err(x),
            }
        }
    } else if s[q] == '(' {
        match parse_at(s, q + 1) {
            Ok((func, e1)) => if e1 <= p || e1 > s.len() {
                Err(ParseError::UnexpectedEnd { at: e1 as usize })
            } else {
                match parse_at(s, e1) {
                    Ok((argm, e2)) => {
                        let c = skip_trivia(s, e2);
                        if 0 <= c < s.len() && s[c] == ')' {
                            Ok(
                                (
                                    Tree::App { func: Box::new(func), argm: Box::new(argm) },
                                    c + 1,
                                ),
                            )
                        } else {
                            Err(ParseError::MissingClose { at: c as usize })
                        }
                    },
                    Err(x) => Err(x),
                }
            },
            Err(x) => Err(x),
        }
    } else {
        let n1 = name_end(s, q);
        if n1 <= q {
            Err(ParseError::ExpectedName { at: q as usize })
        } else {
            Ok((Tree::Var { name: s.subrange(q, n1) }, n1))
        }
    }
}

proof fn lemma_trivia_end_bounds(s: Seq<char>, p: int, in_comment: bool)
    requires
        0 <= p <= s.len(),
    ensures
        p <= trivia_end(s, p, in_comment) <= s.len(),
    decreases s.len() - p,
{
    if p < s.len() {
        if in_comment {
            lemma_trivia_end_bounds(s, p + 1, s[p] != '\n');
        } else if is_space(s[p]) {
            lemma_trivia_end_bounds(s, p + 1, false);
        } else if s[p] == '/' && p + 1 < s.len() && s[p + 1] == '/' {
            lemma_trivia_end_bounds(s, p + 2, true);
        }
    }
}

proof fn lemma_name_end_bounds(s: Seq<char>, p: int)
    requires
        0 <= p <= s.len(),
    ensures
        p <= name_end(s, p) <= s.len(),
        forall|i: int| p <= i < name_end(s, p) ==> is_name_char(#[trigger] s[i]),
    decreases s.len() - p,
{
    if p < s.len() && is_name_char(s[p]) {
        lemma_name_end_bounds(s, p + 1);
    }
}

/// A parsed term takes at least one character and ends within the text.
pub proof fn lemma_parse_advances(s: Seq<char>, p: int)
    requires
        0 <= p <= s.len(),
    ensures
        parse_at(s, p) matches Ok((_, e)) ==> p < e <= s.len(),
    decreases s.len() - p,
{
    let q = skip_trivia(s, p);
    lemma_trivia_end_bounds(s, p, false);
    if q < s.len() {
        if is_lambda(s[q]) {
            let n0 = skip_trivia(s, q + 1);
            lemma_trivia_end_bounds(s, q + 1, false);
            lemma_name_end_bounds(s, n0);
            let n1 = name_end(s, n0);
            if n0 < s.len() && n1 > n0 {
                lemma_parse_advances(s, n1);
            }
        } else if s[q] == '(' {
            lemma_parse_advances(s, q + 1);
            if let Ok((_, e1)) = parse_at(s, q + 1) {
                lemma_parse_advances(s, e1);
                if let Ok((_, e2)) = parse_at(s, e1) {
                    lemma_trivia_end_bounds(s, e2, false);
                }
            }
        } else {
            lemma_name_end_bounds(s, q);
        }
    }
}

/// A cursor over a source text that reads terms from it.
pub struct TermParser<'i> {
    input: &'i str,
    chars: Vec<char>,
    index: usize,
}

impl<'i> View for TermParser<'i> {
    /// The text's characters and the cursor's position in them.
    type V = (Seq<char>, int);

    closed spec fn view(&self) -> (Seq<char>, int) {
        (self.chars@, self.index as int)
    }
}

impl<'i> TermParser<'i> {
    /// The cursor lies within the text, whose characters the parser holds.
    pub closed spec fn wf(&self) -> bool {
        &&& self.chars@ == self.input@
        &&& self.index <= self.chars@.len()
    }

    /// A parser at the start of `input`.
    pub fn new(input: &'i str) -> (r: Self)
        ensures
            r.wf(),
            r@ == (input@, 0int),
    {
        let n = input.unicode_len();
        let mut chars: Vec<char> = Vec::new();
        let mut i: usize = 0;
        while i < n
            invariant
                n == input@.len(),
                i <= n,
                chars@ == input@.subrange(0, i as int),
            decreases n - i,
        {
            chars.push(input.get_char(i));
            i = i + 1;
        }
        proof {
            assert(chars@ =~= input@);
        }
        TermParser { input, chars, index: 0 }
    }

    /// Moves the cursor past whitespace and line comments.
    fn skip_trivia(&mut self)
        requires
            old(self).wf(),
        ensures
            final(self).wf(),
            final(self).input == old(self).input,
            final(self).chars == old(self).chars,
            final(self).index as int == skip_trivia(old(self).chars@, old(self).index as int),
    {
        let ghost s = self.chars@;
        let ghost start = self.index as int;
        let n = self.chars.len();
        let mut in_comment = false;
        while self.index < n
            invariant
                self.wf(),
                s == self.chars@,
                n == s.len(),
                self.input == old(self).input,
                self.chars == old(self).chars,
                s == old(self).chars@,
                start == old(self).index as int,
                trivia_end(s, self.index as int, in_comment) == skip_trivia(s, start),
            decreases n - self.index,
        {
            let c = self.chars[self.index];
            if in_comment {
                in_comment = c != '\n';
                self.index = self.index + 1;
            } else if c == ' ' || c == '\t' || c == '\n' || c == '\x0C' || c == '\r' {
                self.index = self.index + 1;
            } else if c == '/' && self.index + 1 < n && self.chars[self.index + 1] == '/' {
                in_comment = true;
                self.index = self.index + 2;
            } else {
                return;
            }
        }
    }

    /// Moves the cursor past the run of name characters at it.
    fn skip_name(&mut self)
        requires
            old(self).wf(),
        ensures
            final(self).wf(),
            final(self).input == old(self).input,
            final(self).chars == old(self).chars,
            final(self).index as int == name_end(old(self).chars@, old(self).index as int),
    {
        let ghost s = self.chars@;
        let ghost start = self.index as int;
        let n = self.chars.len();
        while self.index < n
            invariant
                self.wf(),
                s == self.chars@,
                n == s.len(),
                self.input == old(self).input,
                self.chars == old(self).chars,
                s == old(self).chars@,
                start == old(self).index as int,
                name_end(s, self.index as int) == name_end(s, start),
            decreases n - self.index,
        {
            let c = self.chars[self.index];
            if ('a' <= c && c <= 'z') || ('A' <= c && c <= 'Z') || ('0' <= c && c <= '9') || c
                == '_' || c == '.' || c == '-' || c == '/' || c == '$' {
                self.index = self.index + 1;
            } else {
                return;
            }
        }
    }

    /// Reads one term at the cursor and moves the cursor past it; on failure,
    /// says what was missing and where.
    pub fn parse(&mut self) -> (r: Result<Term, ParseError>)
        requires
            old(self).wf(),
        ensures
            final(self).wf(),
            final(self)@.0 == old(self)@.0,
            match r {
                Ok(t) => parse_at(old(self)@.0, old(self)@.1) == Ok::<(Tree, int), ParseError>(
                    (t@, final(self)@.1),
                ),
                Err(e) => parse_at(old(self)@.0, old(self)@.1) == Err::<(Tree, int), ParseError>(
                    e,
                ),
            },
        decreases old(self)@.0.len() - old(self)@.1,
    {
        let ghost s = self.chars@;
        let ghost p = self.index as int;
        proof {
            lemma_trivia_end_bounds(s, p, false);
        }
        self.skip_trivia();
        let n = self.chars.len();
        let q = self.index;
        if q >= n {
            return Err(ParseError::UnexpectedEnd { at: q });
        }
        let c = self.chars[q];
        if c == '\u{3bb}' {
            self.index = q + 1;
            proof {
                lemma_trivia_end_bounds(s, q + 1, false);
            }
            self.skip_trivia();
            let n0 = self.index;
            if n0 >= n {
                return Err(ParseError::UnexpectedEnd { at: n0 });
            }
            proof {
                lemma_name_end_bounds(s, n0 as int);
            }
            self.skip_name();
            let n1 = self.index;
            if n1 == n0 {
                return Err(ParseError::ExpectedName { at: n0 });
            }
            let name = self.input.substring_char(n0, n1).to_owned();
            match self.parse() {
                Ok(body) => Ok(Term::Lam { name, body: Box::new(body) }),
                Err(e) => Err(e),
            }
        } else if c == '(' {
            self.index = q + 1;
            let func = match self.parse() {
                Ok(t) => t,
                Err(e) => return Err(e),
            };
            proof {
                lemma_parse_advances(s, q + 1);
            }
            let e1 = self.index;
            let argm = match self.parse() {
                Ok(t) => t,
                Err(e) => return Err(e),
            };
            proof {
                lemma_parse_advances(s, e1 as int);
                lemma_trivia_end_bounds(s, self.index as int, false);
            }
            self.skip_trivia();
            let c2 = self.index;
            if c2 < n && self.chars[c2] == ')' {
                self.index = c2 + 1;
                Ok(Term::App { func: Box::new(func), argm: Box::new(argm) })
            } else {
                Err(ParseError::MissingClose { at: c2 })
            }
        } else {
            proof {
                lemma_name_end_bounds(s, q as int);
            }
            self.skip_name();
            let n1 = self.index;
            if n1 == q {
                return Err(ParseError::ExpectedName { at: q });
            }
            let name = self.input.substring_char(q, n1).to_owned();
            Ok(Term::Var { name })
        }
    }
}

} // verus!
