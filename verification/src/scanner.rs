//! The scanner: turns source text into tokens on demand.
//!
//! Each token carries its kind, the exact source lexeme, and a 1-based
//! source line. Whitespace and `//` line comments are skipped; line numbers
//! advance on every line feed, including inside skipped regions and string
//! literals. At end of input the scanner yields `Eof` forever; an unexpected
//! character or an unterminated string yields an `Error` token whose lexeme
//! is the error message.
//!
//! Every call to [`Scanner::scan`] that does not return `Eof` strictly
//! advances the scanner's position, and `Eof` is returned exactly when the
//! end of input has been reached, so any source produces a finite token
//! stream terminated by `Eof`.

use crate::chunk::LineNumber;
use vstd::prelude::*;

verus! {

#[derive(Debug, Clone, Copy, PartialEq, Eq, Structural)]
pub enum TokenKind {
    // Single-character tokens
    LeftParen,
    RightParen,
    LeftBrace,
    RightBrace,
    Comma,
    Dot,
    Minus,
    Plus,
    Semicolon,
    Slash,
    Star,
    // One or two character tokens
    Bang,
    BangEqual,
    Equal,
    EqualEqual,
    Greater,
    GreaterEqual,
    Less,
    LessEqual,
    // Literals
    Identifier,
    String,
    Number,
    // Keywords
    And,
    Class,
    Else,
    False,
    For,
    Fun,
    If,
    Nil,
    Or,
    Print,
    Return,
    Super,
    This,
    True,
    Var,
    While,
    // Special tokens
    Error,
    Eof,
}

#[derive(Debug, PartialEq, Eq)]
pub struct Token {
    pub kind: TokenKind,
    pub lexeme: String,
    pub line: LineNumber,
}

impl Clone for Token {
    fn clone(&self) -> (r: Token)
        ensures
            r == *self,
    {
        Token { kind: self.kind, lexeme: self.lexeme.clone(), line: self.line }
    }
}

impl Token {
    pub fn new(kind: TokenKind, lexeme: &str, line: LineNumber) -> (t: Token)
        ensures
            t.kind == kind,
            t.lexeme@ == lexeme@,
            t.line == line,
    {
        Token { kind, lexeme: lexeme.to_owned(), line }
    }
}

/// Decimal digits.
pub open spec fn spec_is_digit(c: char) -> bool {
    48 <= c as u32 <= 57
}

/// ASCII letters and underscore.
pub open spec fn spec_is_alpha(c: char) -> bool {
    (97 <= c as u32 <= 122) || (65 <= c as u32 <= 90) || c as u32 == 95
}

pub fn is_digit(c: char) -> (r: bool)
    ensures
        r == spec_is_digit(c),
{
    c >= '0' && c <= '9'
}

pub fn is_alpha(c: char) -> (r: bool)
    ensures
        r == spec_is_alpha(c),
{
    (c >= 'a' && c <= 'z') || (c >= 'A' && c <= 'Z') || c == '_'
}

pub struct Scanner {
    input: String,
    len: usize,
    start: usize,
    current: usize,
    line: LineNumber,
}

impl Scanner {
    /// The cached length and the token-start position are consistent with
    /// the input and the cursor.
    pub closed spec fn wf_cache(&self) -> bool {
        &&& self.len == self.input@.len()
        &&& self.start <= self.current
        &&& self.line >= 1
    }

    /// The cached character count matches the input, the token-start and
    /// cursor positions are in bounds, and the line counter started at 1.
    pub open spec fn wf(&self) -> bool {
        &&& self.wf_cache()
        &&& self.spec_current() <= self.spec_input().len()
        &&& self.spec_line() >= 1
    }

    pub closed spec fn spec_input(&self) -> Seq<char> {
        self.input@
    }

    pub closed spec fn spec_current(&self) -> nat {
        self.current as nat
    }

    pub closed spec fn spec_line(&self) -> int {
        self.line as int
    }

    pub fn new(input: &String) -> (s: Scanner)
        ensures
            s.wf(),
            s.spec_input() == input@,
            s.spec_current() == 0,
            s.spec_line() == 1,
    {
        let owned = input.clone();
        let len = owned.as_str().unicode_len();
        Scanner { input: owned, len, start: 0, current: 0, line: 1 }
    }

    fn make_token(&self, kind: TokenKind) -> (t: Token)
        requires
            self.wf(),
        ensures
            t.kind == kind,
            t.lexeme@ == self.spec_input().subrange(self.start as int, self.current as int),
            t.line == self.line,
    {
        let lexeme = self.input.as_str().substring_char(self.start, self.current);
        Token::new(kind, lexeme, self.line)
    }

    fn error_token(&self, message: &str) -> (t: Token)
        ensures
            t.kind == TokenKind::Error,
            t.lexeme@ == message@,
            t.line == self.line,
    {
        Token::new(TokenKind::Error, message, self.line)
    }

    fn peek(&self) -> (r: Option<char>)
        requires
            self.wf(),
        ensures
            r == if self.spec_current() < self.spec_input().len() {
                Some(self.spec_input()[self.spec_current() as int])
            } else {
                None::<char>
            },
    {
        if self.current < self.len {
            Some(self.input.as_str().get_char(self.current))
        } else {
            None
        }
    }

    fn peek_next(&self) -> (r: Option<char>)
        requires
            self.wf(),
        ensures
            r == if self.spec_current() + 1 < self.spec_input().len() {
                Some(self.spec_input()[self.spec_current() as int + 1])
            } else {
                None::<char>
            },
    {
        if self.current < self.len && self.current + 1 < self.len {
            Some(self.input.as_str().get_char(self.current + 1))
        } else {
            None
        }
    }

    fn advance_char(&mut self) -> (r: Option<char>)
        requires
            old(self).wf(),
        ensures
            final(self).wf(),
            final(self).spec_input() == old(self).spec_input(),
            final(self).start == old(self).start,
            final(self).line == old(self).line,
            r == if old(self).spec_current() < old(self).spec_input().len() {
                Some(old(self).spec_input()[old(self).spec_current() as int])
            } else {
                None::<char>
            },
            final(self).spec_current() == if old(self).spec_current()
                < old(self).spec_input().len() {
                old(self).spec_current() + 1
            } else {
                old(self).spec_current()
            },
    {
        match self.peek() {
            Some(c) => {
                self.current = self.current + 1;
                Some(c)
            },
            None => None,
        }
    }

    /// Consumes the next character when it equals `expected`.
    fn match_char(&mut self, expected: char) -> (r: bool)
        requires
            old(self).wf(),
        ensures
            final(self).wf(),
            final(self).spec_input() == old(self).spec_input(),
            final(self).start == old(self).start,
            final(self).line == old(self).line,
            r == (old(self).spec_current() < old(self).spec_input().len()
                && old(self).spec_input()[old(self).spec_current() as int] == expected),
            final(self).spec_current() == if r {
                old(self).spec_current() + 1
            } else {
                old(self).spec_current()
            },
    {
        match self.peek() {
            Some(c) => {
                if c == expected {
                    self.current = self.current + 1;
                    true
                } else {
                    false
                }
            },
            None => false,
        }
    }

    /// Consumes a run of decimal digits, stopping exactly where it ends.
    fn match_digits(&mut self)
        requires
            old(self).wf(),
        ensures
            final(self).wf(),
            final(self).spec_input() == old(self).spec_input(),
            final(self).start == old(self).start,
            final(self).line == old(self).line,
            final(self).spec_current() >= old(self).spec_current(),
            final(self).spec_current() as int == spec_digit_run_end(
                old(self).spec_input(),
                old(self).spec_current() as int,
            ),
    {
        let ghost s = self.spec_input();
        loop
            invariant
                self.wf(),
                self.spec_input() == s,
                s == old(self).spec_input(),
                self.start == old(self).start,
                self.line == old(self).line,
                self.spec_current() >= old(self).spec_current(),
                spec_digit_run_end(s, old(self).spec_current() as int) == spec_digit_run_end(
                    s,
                    self.spec_current() as int,
                ),
            decreases self.len - self.current,
        {
            match self.peek() {
                Some(c) => {
                    if is_digit(c) {
                        self.current = self.current + 1;
                    } else {
                        return ;
                    }
                },
                None => {
                    return ;
                },
            }
        }
    }

    /// Consumes a run of identifier characters (letters, digits, `_`),
    /// stopping exactly where it ends.
    fn match_ident_chars(&mut self)
        requires
            old(self).wf(),
        ensures
            final(self).wf(),
            final(self).spec_input() == old(self).spec_input(),
            final(self).start == old(self).start,
            final(self).line == old(self).line,
            final(self).spec_current() >= old(self).spec_current(),
            final(self).spec_current() as int == spec_ident_run_end(
                old(self).spec_input(),
                old(self).spec_current() as int,
            ),
    {
        let ghost s = self.spec_input();
        loop
            invariant
                self.wf(),
                self.spec_input() == s,
                s == old(self).spec_input(),
                self.start == old(self).start,
                self.line == old(self).line,
                self.spec_current() >= old(self).spec_current(),
                spec_ident_run_end(s, old(self).spec_current() as int) == spec_ident_run_end(
                    s,
                    self.spec_current() as int,
                ),
            decreases self.len - self.current,
        {
            match self.peek() {
                Some(c) => {
                    if is_alpha(c) || is_digit(c) {
                        self.current = self.current + 1;
                    } else {
                        return ;
                    }
                },
                None => {
                    return ;
                },
            }
        }
    }

    /// Advances the line counter, saturating at the largest representable
    /// line number.
    fn bump_line(&mut self)
        requires
            old(self).wf(),
        ensures
            final(self).wf(),
            final(self).spec_input() == old(self).spec_input(),
            final(self).start == old(self).start,
            final(self).current == old(self).current,
            final(self).spec_line() >= old(self).spec_line(),
            final(self).spec_line() == spec_bump_line(old(self).spec_line()),
    {
        if self.line < i16::MAX {
            self.line = self.line + 1;
        }
    }

    /// Skips spaces, tabs, carriage returns, line feeds and `//` comments;
    /// the cursor and line counter end exactly where [`spec_skip_ws`] says.
    fn skip_whitespace(&mut self)
        requires
            old(self).wf(),
        ensures
            final(self).wf(),
            final(self).spec_input() == old(self).spec_input(),
            final(self).spec_current() >= old(self).spec_current(),
            final(self).spec_line() >= old(self).spec_line(),
            (final(self).spec_current() as int, final(self).spec_line()) == spec_skip_ws(
                old(self).spec_input(),
                old(self).spec_current() as int,
                old(self).spec_line(),
            ),
    {
        let ghost s = self.spec_input();
        let ghost goal = spec_skip_ws(s, self.spec_current() as int, self.spec_line());
        loop
            invariant
                self.wf(),
                self.spec_input() == s,
                self.spec_current() >= old(self).spec_current(),
                self.spec_line() >= old(self).spec_line(),
                s == old(self).spec_input(),
                goal == spec_skip_ws(
                    old(self).spec_input(),
                    old(self).spec_current() as int,
                    old(self).spec_line(),
                ),
                goal == spec_skip_ws(s, self.spec_current() as int, self.spec_line()),
            decreases self.len - self.current,
        {
            match self.peek() {
                Some(c) => {
                    if c == ' ' || c == '\r' || c == '\t' {
                        self.current = self.current + 1;
                    } else if c == '\n' {
                        self.bump_line();
                        self.current = self.current + 1;
                    } else if c == '/' {
                        let next_is_slash = match self.peek_next() {
                            Some(n) => n == '/',
                            None => false,
                        };
                        if next_is_slash {
                            // consume the two slashes; the comment runs to
                            // the end of the line
                            let ghost islash = self.spec_current() as int;
                            proof {
                                lemma_line_end_bounds(s, islash + 2);
                            }
                            self.current = self.current + 2;
                            let ghost pos0 = self.spec_current() as int;
                            let ghost line_before = self.spec_line();
                            loop
                                invariant_except_break
                                    self.spec_line() == line_before,
                                    spec_line_end(s, pos0) == spec_line_end(
                                        s,
                                        self.spec_current() as int,
                                    ),
                                invariant
                                    self.wf(),
                                    self.spec_input() == s,
                                    self.spec_current() >= pos0 >= old(self).spec_current(),
                                    self.spec_line() >= old(self).spec_line(),
                                ensures
                                    (spec_line_end(s, pos0) < s.len()
                                        && self.spec_current() as int == spec_line_end(s, pos0)
                                        + 1 && self.spec_line() == spec_bump_line(line_before))
                                        || (spec_line_end(s, pos0) == s.len() as int
                                        && self.spec_current() == s.len() && self.spec_line()
                                        == line_before),
                                decreases self.len - self.current,
                            {
                                proof {
                                    lemma_line_end_bounds(s, self.spec_current() as int);
                                }
                                match self.peek() {
                                    Some(c2) => {
                                        if c2 == '\n' {
                                            proof {
                                                assert(spec_line_end(s, pos0)
                                                    == self.spec_current() as int);
                                            }
                                            self.bump_line();
                                            self.current = self.current + 1;
                                            break ;
                                        } else {
                                            self.current = self.current + 1;
                                        }
                                    },
                                    None => {
                                        proof {
                                            assert(spec_line_end(s, pos0) == s.len() as int);
                                        }
                                        break ;
                                    },
                                }
                            }
                            proof {
                                lemma_skip_comment_eval(s, pos0, line_before);
                                assert(spec_skip_ws(s, islash, line_before) == spec_skip_comment(
                                    s,
                                    pos0,
                                    line_before,
                                ));
                                if spec_line_end(s, pos0) == s.len() as int {
                                    assert(spec_skip_ws(
                                        s,
                                        self.spec_current() as int,
                                        self.spec_line(),
                                    ) == (s.len() as int, line_before));
                                }
                            }
                        } else {
                            return ;
                        }
                    } else {
                        return ;
                    }
                },
                None => {
                    return ;
                },
            }
        }
    }

    /// Scans the rest of a string literal; the opening quote has been
    /// consumed. The literal runs to the next double quote, counting the
    /// line feeds inside it; when no closing quote exists the result is an
    /// `Error` token whose lexeme is the message.
    fn string(&mut self) -> (t: Token)
        requires
            old(self).wf(),
        ensures
            final(self).wf(),
            final(self).spec_input() == old(self).spec_input(),
            final(self).spec_current() >= old(self).spec_current(),
            final(self).spec_line() >= old(self).spec_line(),
            final(self).start == old(self).start,
            t.line == final(self).spec_line(),
            t.kind == TokenKind::String || t.kind == TokenKind::Error,
            ({
                let s = old(self).spec_input();
                let e = spec_quote_end(s, old(self).spec_current() as int);
                &&& (e < s.len() ==> {
                    &&& t.kind == TokenKind::String
                    &&& final(self).spec_current() == e + 1
                    &&& final(self).spec_line() == spec_advance_lines(
                        s,
                        old(self).spec_current() as int,
                        e,
                        old(self).spec_line(),
                    )
                    &&& t.lexeme@ == s.subrange(final(self).start as int, e + 1)
                })
                &&& (e == s.len() ==> {
                    &&& t.kind == TokenKind::Error
                    &&& t.lexeme@ == "Unterminated string."@
                    &&& final(self).spec_current() == s.len()
                    &&& final(self).spec_line() == spec_advance_lines(
                        s,
                        old(self).spec_current() as int,
                        s.len() as int,
                        old(self).spec_line(),
                    )
                })
            }),
    {
        let ghost s = self.spec_input();
        let ghost pos0 = self.spec_current() as int;
        let ghost line0 = self.spec_line();
        proof {
            lemma_quote_end_bounds(s, pos0);
        }
        let ghost e = spec_quote_end(s, pos0);
        loop
            invariant_except_break
                spec_quote_end(s, self.spec_current() as int) == e,
                self.spec_line() == spec_advance_lines(s, pos0, self.spec_current() as int, line0),
            invariant
                self.wf(),
                self.spec_input() == s,
                s == old(self).spec_input(),
                pos0 == old(self).spec_current() as int,
                line0 == old(self).spec_line(),
                e == spec_quote_end(s, pos0),
                pos0 <= self.spec_current() as int,
                self.spec_line() >= line0,
                self.start == old(self).start,
            ensures
                e == s.len() as int,
                self.spec_current() == s.len(),
                self.spec_line() == spec_advance_lines(s, pos0, s.len() as int, line0),
            decreases self.len - self.current,
        {
            proof {
                lemma_quote_end_bounds(s, self.spec_current() as int);
            }
            match self.peek() {
                Some(c) => {
                    proof {
                        lemma_advance_lines_snoc(s, pos0, self.spec_current() as int, line0);
                    }
                    if c == '"' {
                        proof {
                            assert(e == self.spec_current() as int);
                        }
                        self.current = self.current + 1;
                        let token = self.make_token(TokenKind::String);
                        return token;
                    } else if c == '\n' {
                        self.bump_line();
                        self.current = self.current + 1;
                    } else {
                        self.current = self.current + 1;
                    }
                },
                None => {
                    proof {
                        assert(e == s.len() as int);
                    }
                    break ;
                },
            }
        }
        self.error_token("Unterminated string.")
    }

    /// Scans the rest of a number literal: digits with an optional fraction;
    /// a trailing `.` without digits is left unconsumed.
    fn number(&mut self) -> (t: Token)
        requires
            old(self).wf(),
        ensures
            final(self).wf(),
            final(self).spec_input() == old(self).spec_input(),
            final(self).spec_current() >= old(self).spec_current(),
            final(self).spec_line() == old(self).spec_line(),
            t.line == final(self).spec_line(),
            t.kind == TokenKind::Number,
            final(self).start == old(self).start,
            final(self).spec_current() as int == spec_number_end(
                old(self).spec_input(),
                old(self).spec_current() as int,
            ),
            t.lexeme@ == final(self).spec_input().subrange(
                final(self).start as int,
                final(self).spec_current() as int,
            ),
    {
        proof {
            lemma_digit_run_bounds(self.spec_input(), self.spec_current() as int);
        }
        self.match_digits();
        let dot = match self.peek() {
            Some(c) => c == '.',
            None => false,
        };
        if dot {
            let digit_after = match self.peek_next() {
                Some(c) => is_digit(c),
                None => false,
            };
            if digit_after {
                // consume the '.'
                self.current = self.current + 1;
                self.match_digits();
            }
        }
        self.make_token(TokenKind::Number)
    }

    /// Decides keyword versus identifier for the lexeme just scanned, by a
    /// first-letter dispatch and a tail comparison.
    fn check_keyword(&self, offset: usize, keyword: &str, kind: TokenKind) -> (r: TokenKind)
        requires
            self.wf(),
            self.start + offset <= self.current,
        ensures
            r == (if self.spec_input().subrange(
                self.start + offset,
                self.current as int,
            ) == keyword@ {
                kind
            } else {
                TokenKind::Identifier
            }),
    {
        let tail = self.input.as_str().substring_char(self.start + offset, self.current);
        if str_contents_equal(tail, keyword) {
            kind
        } else {
            TokenKind::Identifier
        }
    }

    fn identifier_type(&self) -> (r: TokenKind)
        requires
            self.wf(),
            self.start < self.current,
        ensures
            r == spec_keyword_kind(
                self.spec_input().subrange(self.start as int, self.current as int),
            ),
    {
        proof {
            reveal_strlit("and");
            reveal_strlit("nd");
            reveal_strlit("class");
            reveal_strlit("lass");
            reveal_strlit("else");
            reveal_strlit("lse");
            reveal_strlit("false");
            reveal_strlit("alse");
            reveal_strlit("for");
            reveal_strlit("r");
            reveal_strlit("fun");
            reveal_strlit("n");
            reveal_strlit("if");
            reveal_strlit("f");
            reveal_strlit("nil");
            reveal_strlit("il");
            reveal_strlit("or");
            reveal_strlit("print");
            reveal_strlit("rint");
            reveal_strlit("return");
            reveal_strlit("eturn");
            reveal_strlit("super");
            reveal_strlit("uper");
            reveal_strlit("this");
            reveal_strlit("is");
            reveal_strlit("true");
            reveal_strlit("ue");
            reveal_strlit("var");
            reveal_strlit("ar");
            reveal_strlit("while");
            reveal_strlit("hile");
        }
        let ghost s = self.spec_input().subrange(self.start as int, self.current as int);
        let first = self.input.as_str().get_char(self.start);
        proof {
            assert(s.len() >= 1);
            assert(s[0] == first);
        }
        if first == 'a' {
            let r = self.check_keyword(1, "nd", TokenKind::And);
            proof {
                assert("and"@.subrange(1, 3) =~= "nd"@);
                assert(s.subrange(1, s.len() as int) =~= self.spec_input().subrange(
                    self.start + 1,
                    self.current as int,
                ));
                lemma_split_eq(s, "and"@, 1);
            }
            return r;
        } else if first == 'c' {
            let r = self.check_keyword(1, "lass", TokenKind::Class);
            proof {
                assert("class"@.subrange(1, 5) =~= "lass"@);
                assert(s.subrange(1, s.len() as int) =~= self.spec_input().subrange(
                    self.start + 1,
                    self.current as int,
                ));
                lemma_split_eq(s, "class"@, 1);
            }
            return r;
        } else if first == 'e' {
            let r = self.check_keyword(1, "lse", TokenKind::Else);
            proof {
                assert("else"@.subrange(1, 4) =~= "lse"@);
                assert(s.subrange(1, s.len() as int) =~= self.spec_input().subrange(
                    self.start + 1,
                    self.current as int,
                ));
                lemma_split_eq(s, "else"@, 1);
            }
            return r;
        } else if first == 'f' {
            if self.current - self.start > 1 {
                let second = self.input.as_str().get_char(self.start + 1);
                proof {
                    assert(s[1] == second);
                }
                if second == 'a' {
                    let r = self.check_keyword(2, "lse", TokenKind::False);
                    proof {
                        assert("false"@.subrange(2, 5) =~= "lse"@);
                        assert(s.subrange(2, s.len() as int) =~= self.spec_input().subrange(
                            self.start + 2,
                            self.current as int,
                        ));
                        lemma_split_eq(s, "false"@, 2);
                    }
                    return r;
                } else if second == 'o' {
                    let r = self.check_keyword(2, "r", TokenKind::For);
                    proof {
                        assert("for"@.subrange(2, 3) =~= "r"@);
                        assert(s.subrange(2, s.len() as int) =~= self.spec_input().subrange(
                            self.start + 2,
                            self.current as int,
                        ));
                        lemma_split_eq(s, "for"@, 2);
                    }
                    return r;
                } else if second == 'u' {
                    let r = self.check_keyword(2, "n", TokenKind::Fun);
                    proof {
                        assert("fun"@.subrange(2, 3) =~= "n"@);
                        assert(s.subrange(2, s.len() as int) =~= self.spec_input().subrange(
                            self.start + 2,
                            self.current as int,
                        ));
                        lemma_split_eq(s, "fun"@, 2);
                    }
                    return r;
                }
            }
        } else if first == 'i' {
            let r = self.check_keyword(1, "f", TokenKind::If);
            proof {
                assert("if"@.subrange(1, 2) =~= "f"@);
                assert(s.subrange(1, s.len() as int) =~= self.spec_input().subrange(
                    self.start + 1,
                    self.current as int,
                ));
                lemma_split_eq(s, "if"@, 1);
            }
            return r;
        } else if first == 'n' {
            let r = self.check_keyword(1, "il", TokenKind::Nil);
            proof {
                assert("nil"@.subrange(1, 3) =~= "il"@);
                assert(s.subrange(1, s.len() as int) =~= self.spec_input().subrange(
                    self.start + 1,
                    self.current as int,
                ));
                lemma_split_eq(s, "nil"@, 1);
            }
            return r;
        } else if first == 'o' {
            let r = self.check_keyword(1, "r", TokenKind::Or);
            proof {
                assert("or"@.subrange(1, 2) =~= "r"@);
                assert(s.subrange(1, s.len() as int) =~= self.spec_input().subrange(
                    self.start + 1,
                    self.current as int,
                ));
                lemma_split_eq(s, "or"@, 1);
            }
            return r;
        } else if first == 'p' {
            let r = self.check_keyword(1, "rint", TokenKind::Print);
            proof {
                assert("print"@.subrange(1, 5) =~= "rint"@);
                assert(s.subrange(1, s.len() as int) =~= self.spec_input().subrange(
                    self.start + 1,
                    self.current as int,
                ));
                lemma_split_eq(s, "print"@, 1);
            }
            return r;
        } else if first == 'r' {
            let r = self.check_keyword(1, "eturn", TokenKind::Return);
            proof {
                assert("return"@.subrange(1, 6) =~= "eturn"@);
                assert(s.subrange(1, s.len() as int) =~= self.spec_input().subrange(
                    self.start + 1,
                    self.current as int,
                ));
                lemma_split_eq(s, "return"@, 1);
            }
            return r;
        } else if first == 't' {
            if self.current - self.start > 1 {
                let second = self.input.as_str().get_char(self.start + 1);
                proof {
                    assert(s[1] == second);
                }
                if second == 'h' {
                    let r = self.check_keyword(2, "is", TokenKind::This);
                    proof {
                        assert("this"@.subrange(2, 4) =~= "is"@);
                        assert(s.subrange(2, s.len() as int) =~= self.spec_input().subrange(
                            self.start + 2,
                            self.current as int,
                        ));
                        lemma_split_eq(s, "this"@, 2);
                    }
                    return r;
                } else if second == 'r' {
                    let r = self.check_keyword(2, "ue", TokenKind::True);
                    proof {
                        assert("true"@.subrange(2, 4) =~= "ue"@);
                        assert(s.subrange(2, s.len() as int) =~= self.spec_input().subrange(
                            self.start + 2,
                            self.current as int,
                        ));
                        lemma_split_eq(s, "true"@, 2);
                    }
                    return r;
                }
            }
        } else if first == 's' {
            let r = self.check_keyword(1, "uper", TokenKind::Super);
            proof {
                assert("super"@.subrange(1, 5) =~= "uper"@);
                assert(s.subrange(1, s.len() as int) =~= self.spec_input().subrange(
                    self.start + 1,
                    self.current as int,
                ));
                lemma_split_eq(s, "super"@, 1);
            }
            return r;
        } else if first == 'v' {
            let r = self.check_keyword(1, "ar", TokenKind::Var);
            proof {
                assert("var"@.subrange(1, 3) =~= "ar"@);
                assert(s.subrange(1, s.len() as int) =~= self.spec_input().subrange(
                    self.start + 1,
                    self.current as int,
                ));
                lemma_split_eq(s, "var"@, 1);
            }
            return r;
        } else if first == 'w' {
            let r = self.check_keyword(1, "hile", TokenKind::While);
            proof {
                assert("while"@.subrange(1, 5) =~= "hile"@);
                assert(s.subrange(1, s.len() as int) =~= self.spec_input().subrange(
                    self.start + 1,
                    self.current as int,
                ));
                lemma_split_eq(s, "while"@, 1);
            }
            return r;
        }
        TokenKind::Identifier
    }

    /// Scans the rest of an identifier or keyword.
    fn identifier(&mut self) -> (t: Token)
        requires
            old(self).wf(),
            old(self).start < old(self).spec_current(),
        ensures
            final(self).wf(),
            final(self).spec_input() == old(self).spec_input(),
            final(self).spec_current() >= old(self).spec_current(),
            final(self).spec_line() == old(self).spec_line(),
            t.line == final(self).spec_line(),
            is_keyword_or_identifier(t.kind),
            t.kind == spec_keyword_kind(t.lexeme@),
            final(self).start == old(self).start,
            final(self).spec_current() as int == spec_ident_run_end(
                old(self).spec_input(),
                old(self).spec_current() as int,
            ),
            t.lexeme@ == final(self).spec_input().subrange(
                final(self).start as int,
                final(self).spec_current() as int,
            ),
    {
        self.match_ident_chars();
        let kind = self.identifier_type();
        self.make_token(kind)
    }

    /// Produces the next token. Whitespace and comments are skipped first;
    /// at end of input the result is `Eof`, forever. Every token other than
    /// `Eof` strictly advances the position, so the token stream of any
    /// source is finite.
    pub fn scan(&mut self) -> (t: Token)
        requires
            old(self).wf(),
        ensures
            final(self).wf(),
            final(self).spec_input() == old(self).spec_input(),
            final(self).spec_current() >= old(self).spec_current(),
            final(self).spec_line() >= old(self).spec_line(),
            t.line == final(self).spec_line(),
            t.kind == TokenKind::Eof ==> final(self).spec_current()
                == final(self).spec_input().len(),
            t.kind != TokenKind::Eof ==> final(self).spec_current() > old(self).spec_current(),
            old(self).spec_current() == old(self).spec_input().len() ==> t.kind == TokenKind::Eof,
            t.kind == TokenKind::Eof ==> t.lexeme@ == Seq::<char>::empty(),
            old(self).spec_current() == old(self).spec_input().len() ==> final(self).spec_current()
                == old(self).spec_current() && final(self).spec_line() == old(self).spec_line(),
            is_keyword_or_identifier(t.kind) ==> t.kind == spec_keyword_kind(t.lexeme@),
            ({
                let inp = old(self).spec_input();
                let skipped = spec_skip_ws(
                    inp,
                    old(self).spec_current() as int,
                    old(self).spec_line(),
                );
                let p = skipped.0;
                &&& (p >= inp.len() ==> t.kind == TokenKind::Eof && final(self).spec_line()
                    == skipped.1)
                &&& (p < inp.len() ==> {
                    let c = inp[p];
                    &&& (spec_is_single_op(c) ==> t.kind == spec_single_op_kind(c) && t.lexeme@
                        == inp.subrange(p, p + 1) && final(self).spec_current() == p + 1
                        && t.line == skipped.1)
                    &&& (spec_is_compare_start(c) ==> t.kind == spec_compare_kind(
                        c,
                        p + 1 < inp.len() && inp[p + 1] == '=',
                    ) && t.line == skipped.1)
                    &&& (c == '"' ==> {
                        let e = spec_quote_end(inp, p + 1);
                        &&& (e < inp.len() ==> t.kind == TokenKind::String && t.lexeme@
                            == inp.subrange(p, e + 1) && final(self).spec_current() == e + 1
                            && t.line == spec_advance_lines(inp, p + 1, e, skipped.1))
                        &&& (e == inp.len() ==> t.kind == TokenKind::Error && t.lexeme@
                            == "Unterminated string."@ && final(self).spec_current() == inp.len()
                            && t.line == spec_advance_lines(inp, p + 1, inp.len() as int,
                            skipped.1))
                    })
                    &&& (spec_is_digit(c) ==> t.kind == TokenKind::Number && t.lexeme@
                        == inp.subrange(p, spec_number_end(inp, p)) && final(self).spec_current()
                        == spec_number_end(inp, p) && t.line == skipped.1)
                    &&& (spec_is_alpha(c) ==> is_keyword_or_identifier(t.kind) && t.lexeme@
                        == inp.subrange(p, spec_ident_run_end(inp, p)) && final(self).spec_current() == spec_ident_run_end(inp, p) && t.line == skipped.1)
                    &&& (!spec_is_single_op(c) && !spec_is_compare_start(c) && c != '"'
                        && !spec_is_digit(c) && !spec_is_alpha(c) ==> t.kind == TokenKind::Error
                        && t.lexeme@ == "Unexpected character."@ && final(self).spec_current() == p
                        + 1 && t.line == skipped.1)
                })
            }),
    {
        self.skip_whitespace();
        self.start = self.current;
        let next = self.advance_char();
        match next {
            None => self.make_token(TokenKind::Eof),
            Some(c) => {
                if c == '(' {
                    self.make_token(TokenKind::LeftParen)
                } else if c == ')' {
                    self.make_token(TokenKind::RightParen)
                } else if c == '{' {
                    self.make_token(TokenKind::LeftBrace)
                } else if c == '}' {
                    self.make_token(TokenKind::RightBrace)
                } else if c == ';' {
                    self.make_token(TokenKind::Semicolon)
                } else if c == ',' {
                    self.make_token(TokenKind::Comma)
                } else if c == '.' {
                    self.make_token(TokenKind::Dot)
                } else if c == '-' {
                    self.make_token(TokenKind::Minus)
                } else if c == '+' {
                    self.make_token(TokenKind::Plus)
                } else if c == '/' {
                    self.make_token(TokenKind::Slash)
                } else if c == '*' {
                    self.make_token(TokenKind::Star)
                } else if c == '!' {
                    if self.match_char('=') {
                        self.make_token(TokenKind::BangEqual)
                    } else {
                        self.make_token(TokenKind::Bang)
                    }
                } else if c == '=' {
                    if self.match_char('=') {
                        self.make_token(TokenKind::EqualEqual)
                    } else {
                        self.make_token(TokenKind::Equal)
                    }
                } else if c == '>' {
                    if self.match_char('=') {
                        self.make_token(TokenKind::GreaterEqual)
                    } else {
                        self.make_token(TokenKind::Greater)
                    }
                } else if c == '<' {
                    if self.match_char('=') {
                        self.make_token(TokenKind::LessEqual)
                    } else {
                        self.make_token(TokenKind::Less)
                    }
                } else if c == '"' {
                    self.string()
                } else if is_digit(c) {
                    self.number()
                } else if is_alpha(c) {
                    self.identifier()
                } else {
                    self.error_token("Unexpected character.")
                }
            },
        }
    }
}

/// The line counter after one line feed: it advances, saturating at the
/// largest representable line number.
pub open spec fn spec_bump_line(line: int) -> int {
    if line < i16::MAX {
        line + 1
    } else {
        line
    }
}

/// The position of the first line feed at or after `i`, or the end of the
/// input when the rest of the line runs to the end.
pub open spec fn spec_line_end(s: Seq<char>, i: int) -> int
    decreases s.len() - i,
{
    if i < 0 || i >= s.len() {
        s.len() as int
    } else if s[i] == '\n' {
        i
    } else {
        spec_line_end(s, i + 1)
    }
}

proof fn lemma_line_end_bounds(s: Seq<char>, i: int)
    requires
        0 <= i <= s.len(),
    ensures
        i <= spec_line_end(s, i) <= s.len(),
        spec_line_end(s, i) < s.len() ==> s[spec_line_end(s, i)] == '\n',
        forall|j: int| i <= j < spec_line_end(s, i) ==> (#[trigger] s[j]) != '\n',
    decreases s.len() - i,
{
    if i < s.len() && s[i] != '\n' {
        lemma_line_end_bounds(s, i + 1);
        assert forall|j: int| i <= j < spec_line_end(s, i) implies (#[trigger] s[j]) != '\n' by {
            if j > i {
                assert(s[j] != '\n');
            }
        }
    }
}

/// Skipping a comment stops just past the line feed that ends its line,
/// and skipping resumes there; a comment that runs to the end of the input
/// stops at the end.
proof fn lemma_skip_comment_eval(s: Seq<char>, j: int, line: int)
    requires
        0 <= j,
    ensures
        spec_skip_comment(s, j, line) == (if spec_line_end(s, j) < s.len() {
            spec_skip_ws(s, spec_line_end(s, j) + 1, spec_bump_line(line))
        } else {
            (s.len() as int, line)
        }),
    decreases s.len() - j,
{
    if j < s.len() && s[j] != '\n' {
        lemma_skip_comment_eval(s, j + 1, line);
    }
}

/// Where skipping whitespace and `//` comments from position `i` on line
/// `line` stops: the position of the first character that starts a token
/// (or the end of input), together with the line it is on.
pub open spec fn spec_skip_ws(s: Seq<char>, i: int, line: int) -> (int, int)
    decreases s.len() - i, 1int,
{
    if i < 0 || i >= s.len() {
        (i, line)
    } else if s[i] == ' ' || s[i] == '\r' || s[i] == '\t' {
        spec_skip_ws(s, i + 1, line)
    } else if s[i] == '\n' {
        spec_skip_ws(s, i + 1, spec_bump_line(line))
    } else if s[i] == '/' && i + 1 < s.len() && s[i + 1] == '/' {
        spec_skip_comment(s, i + 2, line)
    } else {
        (i, line)
    }
}

/// Where skipping the rest of a line comment (and whatever follows it)
/// stops: the comment runs to the line feed that ends its line, or to the
/// end of the input.
pub open spec fn spec_skip_comment(s: Seq<char>, i: int, line: int) -> (int, int)
    decreases s.len() - i, 0int,
{
    if i < 0 {
        (i, line)
    } else if i >= s.len() {
        (s.len() as int, line)
    } else if s[i] == '\n' {
        spec_skip_ws(s, i + 1, spec_bump_line(line))
    } else {
        spec_skip_comment(s, i + 1, line)
    }
}

/// The position of the first non-digit at or after `i`, or the end of the
/// input: where a run of decimal digits ends.
pub open spec fn spec_digit_run_end(s: Seq<char>, i: int) -> int
    decreases s.len() - i,
{
    if i < 0 || i >= s.len() || !spec_is_digit(s[i]) {
        i
    } else {
        spec_digit_run_end(s, i + 1)
    }
}

/// The position of the first character at or after `i` that is neither a
/// letter, a digit nor an underscore: where an identifier ends.
pub open spec fn spec_ident_run_end(s: Seq<char>, i: int) -> int
    decreases s.len() - i,
{
    if i < 0 || i >= s.len() || !(spec_is_alpha(s[i]) || spec_is_digit(s[i])) {
        i
    } else {
        spec_ident_run_end(s, i + 1)
    }
}

/// The position of the first double quote at or after `i`, or the end of
/// the input: where a string literal's closing quote stands.
pub open spec fn spec_quote_end(s: Seq<char>, i: int) -> int
    decreases s.len() - i,
{
    if i < 0 || i >= s.len() {
        s.len() as int
    } else if s[i] == '"' {
        i
    } else {
        spec_quote_end(s, i + 1)
    }
}

/// The line counter after walking the characters of `s` from `a` to `b`:
/// every line feed advances it (saturating).
pub open spec fn spec_advance_lines(s: Seq<char>, a: int, b: int, line: int) -> int
    decreases b - a,
{
    if a < 0 || a >= b {
        line
    } else if s[a] == '\n' {
        spec_advance_lines(s, a + 1, b, spec_bump_line(line))
    } else {
        spec_advance_lines(s, a + 1, b, line)
    }
}

/// Where a number token ends: its digit run, extended by a fractional part
/// exactly when a `.` directly followed by a digit comes next (a trailing
/// `.` without digits is left unconsumed).
pub open spec fn spec_number_end(s: Seq<char>, i: int) -> int {
    let e = spec_digit_run_end(s, i);
    if e < s.len() && s[e] == '.' && e + 1 < s.len() && spec_is_digit(s[e + 1]) {
        spec_digit_run_end(s, e + 1)
    } else {
        e
    }
}

proof fn lemma_digit_run_bounds(s: Seq<char>, i: int)
    requires
        0 <= i <= s.len(),
    ensures
        i <= spec_digit_run_end(s, i) <= s.len(),
    decreases s.len() - i,
{
    if i < s.len() && spec_is_digit(s[i]) {
        lemma_digit_run_bounds(s, i + 1);
    }
}

proof fn lemma_ident_run_bounds(s: Seq<char>, i: int)
    requires
        0 <= i <= s.len(),
    ensures
        i <= spec_ident_run_end(s, i) <= s.len(),
    decreases s.len() - i,
{
    if i < s.len() && (spec_is_alpha(s[i]) || spec_is_digit(s[i])) {
        lemma_ident_run_bounds(s, i + 1);
    }
}

proof fn lemma_quote_end_bounds(s: Seq<char>, i: int)
    requires
        0 <= i <= s.len(),
    ensures
        i <= spec_quote_end(s, i) <= s.len(),
        spec_quote_end(s, i) < s.len() ==> s[spec_quote_end(s, i)] == '"',
    decreases s.len() - i,
{
    if i < s.len() && s[i] != '"' {
        lemma_quote_end_bounds(s, i + 1);
    }
}

/// Walking one more character extends the line accounting by that
/// character's effect.
proof fn lemma_advance_lines_snoc(s: Seq<char>, a: int, b: int, line: int)
    requires
        0 <= a <= b < s.len(),
    ensures
        spec_advance_lines(s, a, b + 1, line) == (if s[b] == '\n' {
            spec_bump_line(spec_advance_lines(s, a, b, line))
        } else {
            spec_advance_lines(s, a, b, line)
        }),
    decreases b - a,
{
    if a < b {
        if s[a] == '\n' {
            lemma_advance_lines_snoc(s, a + 1, b, spec_bump_line(line));
        } else {
            lemma_advance_lines_snoc(s, a + 1, b, line);
        }
    } else {
        assert(spec_advance_lines(s, b + 1, b + 1, spec_bump_line(line)) == spec_bump_line(line));
        assert(spec_advance_lines(s, b + 1, b + 1, line) == line);
    }
}

/// The characters that form complete one-character tokens.
pub open spec fn spec_is_single_op(c: char) -> bool {
    ||| c == '('
    ||| c == ')'
    ||| c == '{'
    ||| c == '}'
    ||| c == ';'
    ||| c == ','
    ||| c == '.'
    ||| c == '-'
    ||| c == '+'
    ||| c == '/'
    ||| c == '*'
}

/// The characters that start a one-or-two-character comparison token.
pub open spec fn spec_is_compare_start(c: char) -> bool {
    ||| c == '!'
    ||| c == '='
    ||| c == '>'
    ||| c == '<'
}

/// The token kind of a one-character token.
pub open spec fn spec_single_op_kind(c: char) -> TokenKind {
    if c == '(' {
        TokenKind::LeftParen
    } else if c == ')' {
        TokenKind::RightParen
    } else if c == '{' {
        TokenKind::LeftBrace
    } else if c == '}' {
        TokenKind::RightBrace
    } else if c == ';' {
        TokenKind::Semicolon
    } else if c == ',' {
        TokenKind::Comma
    } else if c == '.' {
        TokenKind::Dot
    } else if c == '-' {
        TokenKind::Minus
    } else if c == '+' {
        TokenKind::Plus
    } else if c == '/' {
        TokenKind::Slash
    } else {
        TokenKind::Star
    }
}

/// The token kind of a comparison operator, by its first character and
/// whether a `=` follows it.
pub open spec fn spec_compare_kind(c: char, has_equal: bool) -> TokenKind {
    if c == '!' {
        if has_equal {
            TokenKind::BangEqual
        } else {
            TokenKind::Bang
        }
    } else if c == '=' {
        if has_equal {
            TokenKind::EqualEqual
        } else {
            TokenKind::Equal
        }
    } else if c == '>' {
        if has_equal {
            TokenKind::GreaterEqual
        } else {
            TokenKind::Greater
        }
    } else {
        if has_equal {
            TokenKind::LessEqual
        } else {
            TokenKind::Less
        }
    }
}

/// The token kinds an identifier lexeme can resolve to.
pub open spec fn is_keyword_or_identifier(k: TokenKind) -> bool {
    ||| k == TokenKind::Identifier
    ||| k == TokenKind::And
    ||| k == TokenKind::Class
    ||| k == TokenKind::Else
    ||| k == TokenKind::False
    ||| k == TokenKind::For
    ||| k == TokenKind::Fun
    ||| k == TokenKind::If
    ||| k == TokenKind::Nil
    ||| k == TokenKind::Or
    ||| k == TokenKind::Print
    ||| k == TokenKind::Return
    ||| k == TokenKind::Super
    ||| k == TokenKind::This
    ||| k == TokenKind::True
    ||| k == TokenKind::Var
    ||| k == TokenKind::While
}

/// The keyword a lexeme spells, or `Identifier` when it spells none:
/// classification is by the whole text of the lexeme.
pub open spec fn spec_keyword_kind(s: Seq<char>) -> TokenKind {
    if s == "and"@ {
        TokenKind::And
    } else if s == "class"@ {
        TokenKind::Class
    } else if s == "else"@ {
        TokenKind::Else
    } else if s == "false"@ {
        TokenKind::False
    } else if s == "for"@ {
        TokenKind::For
    } else if s == "fun"@ {
        TokenKind::Fun
    } else if s == "if"@ {
        TokenKind::If
    } else if s == "nil"@ {
        TokenKind::Nil
    } else if s == "or"@ {
        TokenKind::Or
    } else if s == "print"@ {
        TokenKind::Print
    } else if s == "return"@ {
        TokenKind::Return
    } else if s == "super"@ {
        TokenKind::Super
    } else if s == "this"@ {
        TokenKind::This
    } else if s == "true"@ {
        TokenKind::True
    } else if s == "var"@ {
        TokenKind::Var
    } else if s == "while"@ {
        TokenKind::While
    } else {
        TokenKind::Identifier
    }
}

/// Two sequences that agree on a prefix are equal exactly when their tails
/// beyond that prefix are equal.
proof fn lemma_split_eq(s: Seq<char>, k: Seq<char>, off: int)
    requires
        0 <= off <= s.len(),
        off <= k.len(),
        forall|i: int| 0 <= i < off ==> s[i] == k[i],
    ensures
        (s.subrange(off, s.len() as int) == k.subrange(off, k.len() as int)) <==> (s == k),
{
    if s.subrange(off, s.len() as int) == k.subrange(off, k.len() as int) {
        assert(s.subrange(off, s.len() as int).len() == k.subrange(off, k.len() as int).len());
        assert(s.len() - off == k.len() - off);
        assert forall|i: int| 0 <= i < s.len() implies s[i] == k[i] by {
            if i >= off {
                assert(s.subrange(off, s.len() as int)[i - off] == s[i]);
                assert(k.subrange(off, k.len() as int)[i - off] == k[i]);
            }
        }
        assert(s =~= k);
    }
    if s == k {
        assert(s.subrange(off, s.len() as int) =~= k.subrange(off, k.len() as int));
    }
}

/// Content equality of two string slices.
pub fn str_contents_equal(a: &str, b: &str) -> (r: bool)
    ensures
        r == (a@ == b@),
{
    let sa: String = a.to_owned();
    let sb: String = b.to_owned();
    sa == sb
}

/// A strictly increasing sequence of scan positions bounded by the input
/// length cannot be longer than the input plus one: the token stream of any
/// source is finite and ends in `Eof`.
pub proof fn lemma_scan_stream_finite(positions: Seq<int>, input_len: int)
    requires
        input_len >= 0,
        forall|i: int| 0 <= i < positions.len() ==> 0 <= #[trigger] positions[i] <= input_len,
        forall|i: int|
            0 < i < positions.len() ==> #[trigger] positions[i] > positions[i - 1],
    ensures
        positions.len() <= input_len + 1,
{
    assert forall|i: int| 0 <= i < positions.len() implies #[trigger] positions[i] >= i by {
        lemma_positions_grow(positions, input_len, i);
    }
    if positions.len() > input_len + 1 {
        assert(positions[input_len + 1] >= input_len + 1);
    }
}

proof fn lemma_positions_grow(positions: Seq<int>, input_len: int, i: int)
    requires
        0 <= i < positions.len(),
        forall|j: int| 0 <= j < positions.len() ==> 0 <= #[trigger] positions[j] <= input_len,
        forall|j: int|
            0 < j < positions.len() ==> #[trigger] positions[j] > positions[j - 1],
    ensures
        positions[i] >= i,
    decreases i,
{
    if i > 0 {
        lemma_positions_grow(positions, input_len, i - 1);
        assert(positions[i] > positions[i - 1]);
    }
}

} // verus!
