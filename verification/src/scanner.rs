//! The executable scanner, proved against the model in [`crate::model`].

use vstd::prelude::*;

use crate::model::{
    block_comment_end, digit_run_end, emitted, first_at_or_after, ident_run_end, is_alpha_char,
    is_alpha_numeric_char, is_digit_char, keyword_or_identifier, newline_count, number_end,
    scan_at, scan_block_comment_from, scan_identifier_from, scan_line_comment_from,
    scan_number_frac, scan_number_int, scan_string_from, tok, toks_view,
};
use crate::token::{ScanError, Token, TokenKind, TokenKindView};

verus! {

broadcast use {
    crate::model::lemma_emitted_assoc,
    crate::model::lemma_emitted_empty,
    crate::model::lemma_toks_view_push,
};

/// Relies on `str::chars` (collected into a `Vec`): iterating a string
/// slice yields exactly its characters, in order.
#[verifier::external_body]
fn chars_of(s: &str) -> (r: Vec<char>)
    ensures
        r@ == s@,
{
    s.chars().collect()
}

/// Relies on `String`'s `FromIterator<char>` (via `collect`): collecting
/// characters yields the string of exactly those characters, in order.
#[verifier::external_body]
fn string_from_chars(chars: Vec<char>) -> (r: String)
    ensures
        r@ == chars@,
{
    chars.into_iter().collect()
}

/// Decimal digit.
pub fn is_digit(c: char) -> (b: bool)
    ensures
        b == is_digit_char(c),
{
    '0' <= c && c <= '9'
}

/// ASCII letter or underscore: what may start an identifier.
pub fn is_alpha(c: char) -> (b: bool)
    ensures
        b == is_alpha_char(c),
{
    ('a' <= c && c <= 'z') || ('A' <= c && c <= 'Z') || c == '_'
}

/// What may continue an identifier.
pub fn is_alpha_numeric(c: char) -> (b: bool)
    ensures
        b == is_alpha_numeric_char(c),
{
    is_alpha(c) || is_digit(c)
}

/// Whether a scanned lexeme spells exactly the given word.
fn is_word(w: &String, kw: &str) -> (b: bool)
    ensures
        b == (w@ == kw@),
{
    let other: String = kw.to_owned();
    *w == other
}

/// A single-pass scanner over one source text. It owns the source as a
/// random-access character array and a cursor: `start` is the offset of the
/// lexeme currently being recognized, `current` the offset of the next
/// unread character, and `line` the 1-based line of the current position.
pub struct Scanner {
    pub source: Vec<char>,
    pub tokens: Vec<Token>,
    pub start: usize,
    pub current: usize,
    pub line: usize,
}

impl Scanner {
    /// The cursor invariant: offsets stay ordered and in bounds, and the
    /// line counter never outruns the characters consumed (which keeps the
    /// counter's arithmetic in bounds).
    pub open spec fn wf(self) -> bool {
        &&& self.start <= self.current <= self.source@.len()
        &&& 1 <= self.line <= self.current + 1
        &&& self.source@.len() < usize::MAX
    }

    /// A fresh scanner at the start of the source, on line 1, with nothing
    /// emitted. The length bound is a machine limit: the line counter, which
    /// can reach one past the character count, must fit in `usize`.
    pub fn new(source: &str) -> (s: Scanner)
        requires
            source@.len() < usize::MAX,
        ensures
            s.wf(),
            s.source@ == source@,
            s.tokens@ == Seq::<Token>::empty(),
            s.start == 0,
            s.current == 0,
            s.line == 1,
    {
        Scanner {
            source: chars_of(source),
            tokens: Vec::new(),
            start: 0,
            current: 0,
            line: 1,
        }
    }

    /// Consumes and returns the next character, if any remain.
    pub fn next(&mut self) -> (c: Option<char>)
        requires
            old(self).wf(),
        ensures
            final(self).wf(),
            final(self).source == old(self).source,
            final(self).tokens == old(self).tokens,
            final(self).start == old(self).start,
            final(self).line == old(self).line,
            if old(self).current < old(self).source@.len() {
                c == Some(old(self).source@[old(self).current as int]) && final(self).current
                    == old(self).current + 1
            } else {
                c == None::<char> && final(self).current == old(self).current
            },
    {
        if self.current < self.source.len() {
            let ch = self.source[self.current];
            self.current = self.current + 1;
            Some(ch)
        } else {
            None
        }
    }

    /// The next character, without consuming it.
    pub fn peek(&self) -> (c: Option<char>)
        ensures
            c == if self.current < self.source@.len() {
                Some(self.source@[self.current as int])
            } else {
                None::<char>
            },
    {
        if self.current < self.source.len() {
            Some(self.source[self.current])
        } else {
            None
        }
    }

    /// Whether the input is exhausted.
    pub fn is_eof(&self) -> (b: bool)
        ensures
            b == (self.current >= self.source@.len()),
    {
        self.current >= self.source.len()
    }

    /// Consumes the next character exactly when it equals `a` (the
    /// one-character lookahead behind the two-character operators).
    pub fn expect_next(&mut self, a: char) -> (r: bool)
        requires
            old(self).wf(),
        ensures
            final(self).wf(),
            final(self).source == old(self).source,
            final(self).tokens == old(self).tokens,
            final(self).start == old(self).start,
            final(self).line == old(self).line,
            r == (old(self).current < old(self).source@.len() && old(self).source@[old(
                self,
            ).current as int] == a),
            final(self).current == if r {
                old(self).current + 1
            } else {
                old(self).current as int
            },
    {
        if let Some(b) = self.peek() {
            if a == b {
                self.next();
                return true;
            }
        }
        false
    }

    /// Appends a token of the given kind, on the current line.
    pub fn add_token(&mut self, kind: TokenKind)
        requires
            old(self).wf(),
        ensures
            final(self).wf(),
            final(self).source == old(self).source,
            final(self).start == old(self).start,
            final(self).current == old(self).current,
            final(self).line == old(self).line,
            final(self).tokens@ == old(self).tokens@.push(
                Token { kind, line: old(self).line },
            ),
    {
        let line = self.line;
        self.tokens.push(Token::new(kind, line));
    }

    /// Runs the scan to completion, consuming the scanner: one lexeme per
    /// outer step, dispatching on its first character with at most two
    /// characters of lookahead. Returns the tokens in source order — exactly
    /// the sequence the model assigns to the source text — or the first
    /// lexical error, after which no tokens are returned. On a fresh scanner
    /// the outcome is precisely `scan_spec` of the source, so the result is
    /// a pure function of the source text.
    pub fn scan_tokens(self) -> (r: Result<Vec<Token>, ScanError>)
        requires
            self.wf(),
        ensures
            ({
                let m = emitted(
                    toks_view(self.tokens@),
                    scan_at(self.source@, self.current as int, self.line as int),
                );
                match r {
                    Ok(v) => m == Ok::<Seq<crate::token::TokenView>, crate::token::ScanErrorView>(
                        toks_view(v@),
                    ),
                    Err(e) => m == Err::<Seq<crate::token::TokenView>, crate::token::ScanErrorView>(
                        e@,
                    ),
                }
            }),
    {
        let ghost target = emitted(
            toks_view(self.tokens@),
            scan_at(self.source@, self.current as int, self.line as int),
        );
        let mut sc = self;
        loop
            invariant
                sc.wf(),
                sc.source@ == self.source@,
                target == emitted(
                    toks_view(self.tokens@),
                    scan_at(self.source@, self.current as int, self.line as int),
                ),
                emitted(
                    toks_view(sc.tokens@),
                    scan_at(sc.source@, sc.current as int, sc.line as int),
                ) == target,
            ensures
                sc.current >= sc.source@.len(),
                emitted(
                    toks_view(sc.tokens@),
                    scan_at(sc.source@, sc.current as int, sc.line as int),
                ) == target,
            decreases sc.source@.len() - sc.current,
        {
            if sc.is_eof() {
                break ;
            }
            let c = sc.next().unwrap();
            sc.start = sc.current - 1;
            let ghost j: int = sc.start as int;
            if c == '(' {
                sc.add_token(TokenKind::LeftParen);
            } else if c == ')' {
                sc.add_token(TokenKind::RightParen);
            } else if c == '{' {
                sc.add_token(TokenKind::LeftBrace);
            } else if c == '}' {
                sc.add_token(TokenKind::RightBrace);
            } else if c == ',' {
                sc.add_token(TokenKind::Comma);
            } else if c == '.' {
                sc.add_token(TokenKind::Dot);
            } else if c == '-' {
                sc.add_token(TokenKind::Minus);
            } else if c == '+' {
                sc.add_token(TokenKind::Plus);
            } else if c == ';' {
                sc.add_token(TokenKind::Semicolon);
            } else if c == '*' {
                sc.add_token(TokenKind::Star);
            } else if c == '!' {
                let matched = sc.expect_next('=');
                sc.add_token(if matched {
                    TokenKind::BangEqual
                } else {
                    TokenKind::Bang
                });
            } else if c == '=' {
                let matched = sc.expect_next('=');
                sc.add_token(if matched {
                    TokenKind::EqualEqual
                } else {
                    TokenKind::Equal
                });
            } else if c == '<' {
                let matched = sc.expect_next('=');
                sc.add_token(if matched {
                    TokenKind::LessEqual
                } else {
                    TokenKind::Less
                });
            } else if c == '>' {
                let matched = sc.expect_next('=');
                sc.add_token(if matched {
                    TokenKind::GreaterEqual
                } else {
                    TokenKind::Greater
                });
            } else if c == '/' {
                if sc.expect_next('/') {
                    while sc.current < sc.source.len() && sc.source[sc.current] != '\n'
                        invariant
                            sc.wf(),
                            sc.source@ == self.source@,
                            j + 2 <= sc.current,
                            emitted(
                                toks_view(sc.tokens@),
                                scan_line_comment_from(
                                    sc.source@,
                                    sc.current as int,
                                    sc.line as int,
                                ),
                            ) == target,
                        decreases sc.source@.len() - sc.current,
                    {
                        sc.next();
                    }
                } else if sc.expect_next('*') {
                    sc.scan_multiline_comment();
                } else {
                    sc.add_token(TokenKind::Slash);
                }
            } else if c == '"' {
                proof {
                    assert(scan_at(sc.source@, j, sc.line as int) == scan_string_from(
                        sc.source@,
                        j,
                        j + 1,
                        sc.line as int,
                    ));
                }
                let ghost pre = sc;
                match sc.scan_string() {
                    Ok(u) => {},
                    Err(e) => {
                        proof {
                            assert(emitted(
                                toks_view(pre.tokens@),
                                scan_at(pre.source@, j, pre.line as int),
                            ) == Err::<Seq<crate::token::TokenView>, crate::token::ScanErrorView>(
                                e@,
                            ));
                        }
                        return Err(e);
                    },
                }
            } else if is_digit(c) {
                sc.scan_number();
            } else if is_alpha(c) {
                sc.scan_identifier();
            } else if c == ' ' || c == '\r' || c == '\t' {
            } else if c == '\n' {
                sc.line = sc.line + 1;
            } else {
                proof {
                    assert(scan_at(sc.source@, j, sc.line as int)
                        == Err::<Seq<crate::token::TokenView>, _>(
                        crate::token::ScanErrorView::UnexpectedCharacter { line: sc.line as int },
                    ));
                }
                return Err(ScanError::UnexpectedCharacter { line: sc.line });
            }
        }
        proof {
            assert(toks_view(sc.tokens@) + Seq::<crate::token::TokenView>::empty() =~= toks_view(
                sc.tokens@,
            ));
        }
        Ok(sc.tokens)
    }

    /// Consumes a block comment whose opening `/*` has just been consumed,
    /// honouring nesting: `/*` inside the comment deepens it, and only the
    /// `*/` at the outermost depth closes it. Newlines inside the comment
    /// advance the line counter. Input ending first silently ends the
    /// comment, and with it the scan.
    pub fn scan_multiline_comment(&mut self)
        requires
            old(self).wf(),
        ensures
            final(self).wf(),
            final(self).source == old(self).source,
            final(self).tokens == old(self).tokens,
            final(self).start == old(self).start,
            old(self).current <= final(self).current,
            scan_at(
                final(self).source@,
                final(self).current as int,
                final(self).line as int,
            ) == scan_block_comment_from(
                old(self).source@,
                0,
                old(self).current as int,
                old(self).line as int,
            ),
            final(self).current == block_comment_end(
                old(self).source@,
                0,
                old(self).current as int,
            ),
            final(self).line == old(self).line + newline_count(
                old(self).source@,
                old(self).current as int,
                block_comment_end(old(self).source@, 0, old(self).current as int),
            ),
    {
        let mut nesting: usize = 0;
        loop
            invariant_except_break
                scan_block_comment_from(
                    self.source@,
                    nesting as int,
                    self.current as int,
                    self.line as int,
                ) == scan_block_comment_from(
                    old(self).source@,
                    0,
                    old(self).current as int,
                    old(self).line as int,
                ),
                block_comment_end(self.source@, nesting as int, self.current as int)
                    == block_comment_end(old(self).source@, 0, old(self).current as int),
            invariant
                self.wf(),
                self.source == old(self).source,
                self.tokens == old(self).tokens,
                self.start == old(self).start,
                old(self).current <= self.current,
                2 * (nesting as int) <= self.current - old(self).current,
                self.line == old(self).line + newline_count(
                    self.source@,
                    old(self).current as int,
                    self.current as int,
                ),
            ensures
                self.wf(),
                self.source == old(self).source,
                self.tokens == old(self).tokens,
                self.start == old(self).start,
                old(self).current <= self.current,
                scan_at(self.source@, self.current as int, self.line as int)
                    == scan_block_comment_from(
                    old(self).source@,
                    0,
                    old(self).current as int,
                    old(self).line as int,
                ),
                self.current == block_comment_end(
                    old(self).source@,
                    0,
                    old(self).current as int,
                ),
                self.line == old(self).line + newline_count(
                    self.source@,
                    old(self).current as int,
                    self.current as int,
                ),
            decreases self.source@.len() - self.current,
        {
            match self.next() {
                None => {
                    break ;
                },
                Some(c) => {
                    if c == '/' {
                        if self.expect_next('*') {
                            nesting = nesting + 1;
                            proof {
                                crate::model::lemma_newline_count_extend(
                                    self.source@,
                                    old(self).current as int,
                                    self.current - 2,
                                    self.current as int,
                                );
                            }
                        }
                    } else if c == '*' {
                        if self.expect_next('/') {
                            proof {
                                crate::model::lemma_newline_count_extend(
                                    self.source@,
                                    old(self).current as int,
                                    self.current - 2,
                                    self.current as int,
                                );
                            }
                            if nesting == 0 {
                                break ;
                            } else {
                                nesting = nesting - 1;
                            }
                        }
                    } else if c == '\n' {
                        self.line = self.line + 1;
                    }
                },
            }
        }
    }

    /// Scans a string literal whose opening quote is at `start` and has been
    /// consumed. Characters run, over newlines if need be, to the closing
    /// quote; the token's text is exactly the characters between the quotes,
    /// and its line is the line of the closing quote. Input ending first is
    /// an unterminated-string error at the line the search reached.
    pub fn scan_string(&mut self) -> (r: Result<(), ScanError>)
        requires
            old(self).wf(),
            old(self).start < old(self).current,
        ensures
            final(self).wf(),
            final(self).source == old(self).source,
            final(self).start == old(self).start,
            old(self).current <= final(self).current,
            match r {
                Ok(u) => emitted(
                    toks_view(final(self).tokens@),
                    scan_at(final(self).source@, final(self).current as int, final(self).line as int),
                ) == emitted(
                    toks_view(old(self).tokens@),
                    scan_string_from(
                        old(self).source@,
                        old(self).start as int,
                        old(self).current as int,
                        old(self).line as int,
                    ),
                ),
                Err(e) => scan_string_from(
                    old(self).source@,
                    old(self).start as int,
                    old(self).current as int,
                    old(self).line as int,
                ) == Err::<Seq<crate::token::TokenView>, _>(e@),
            },
            r is Ok <==> first_at_or_after(
                old(self).source@,
                '"',
                old(self).current as int,
            ) is Some,
            (first_at_or_after(old(self).source@, '"', old(self).current as int) matches Some(q)
                ==> ({
                &&& final(self).current == q + 1
                &&& final(self).line == old(self).line + newline_count(
                    old(self).source@,
                    old(self).current as int,
                    q,
                )
                &&& toks_view(final(self).tokens@) == toks_view(old(self).tokens@).push(
                    tok(
                        (TokenKindView::StringLit {
                            text: old(self).source@.subrange(old(self).start as int + 1, q),
                        }),
                        old(self).line + newline_count(
                            old(self).source@,
                            old(self).current as int,
                            q,
                        ),
                    ),
                )
            })),
            r is Err ==> final(self).tokens == old(self).tokens && final(self).current == old(
                self,
            ).source@.len() && final(self).line == old(self).line + newline_count(
                old(self).source@,
                old(self).current as int,
                old(self).source@.len() as int,
            ),
    {
        loop
            invariant
                self.wf(),
                self.source == old(self).source,
                self.tokens == old(self).tokens,
                self.start == old(self).start,
                old(self).current <= self.current,
                scan_string_from(
                    self.source@,
                    self.start as int,
                    self.current as int,
                    self.line as int,
                ) == scan_string_from(
                    old(self).source@,
                    old(self).start as int,
                    old(self).current as int,
                    old(self).line as int,
                ),
                first_at_or_after(self.source@, '"', old(self).current as int)
                    == first_at_or_after(self.source@, '"', self.current as int),
                self.line == old(self).line + newline_count(
                    self.source@,
                    old(self).current as int,
                    self.current as int,
                ),
            ensures
                self.wf(),
                self.source == old(self).source,
                self.tokens == old(self).tokens,
                self.start == old(self).start,
                old(self).current <= self.current,
                scan_string_from(
                    self.source@,
                    self.start as int,
                    self.current as int,
                    self.line as int,
                ) == scan_string_from(
                    old(self).source@,
                    old(self).start as int,
                    old(self).current as int,
                    old(self).line as int,
                ),
                first_at_or_after(self.source@, '"', old(self).current as int)
                    == first_at_or_after(self.source@, '"', self.current as int),
                self.line == old(self).line + newline_count(
                    self.source@,
                    old(self).current as int,
                    self.current as int,
                ),
                self.current >= self.source@.len() || self.source@[self.current as int] == '"',
            decreases self.source@.len() - self.current,
        {
            match self.peek() {
                None => {
                    break ;
                },
                Some(c) => {
                    if c == '"' {
                        break ;
                    }
                    self.next();
                    if c == '\n' {
                        self.line = self.line + 1;
                    }
                },
            }
        }
        if self.is_eof() {
            return Err(ScanError::UnterminatedString { line: self.line });
        }
        let lo = self.start + 1;
        let hi = self.current;
        let value = self.lexeme(lo, hi);
        self.add_token(TokenKind::StringLit(value));
        self.next();
        Ok(())
    }

    /// Scans a number literal whose first digit, at `start`, has been
    /// consumed: the maximal digit run, then a fractional part only if a `.`
    /// is followed by another digit (two-character lookahead), so that a
    /// trailing `.` is left for the next lexeme. The token keeps the full
    /// lexeme text.
    pub fn scan_number(&mut self)
        requires
            old(self).wf(),
        ensures
            final(self).wf(),
            final(self).source == old(self).source,
            final(self).start == old(self).start,
            old(self).current <= final(self).current,
            emitted(
                toks_view(final(self).tokens@),
                scan_at(final(self).source@, final(self).current as int, final(self).line as int),
            ) == emitted(
                toks_view(old(self).tokens@),
                scan_number_int(
                    old(self).source@,
                    old(self).start as int,
                    old(self).current as int,
                    old(self).line as int,
                ),
            ),
            final(self).line == old(self).line,
            final(self).current == number_end(old(self).source@, old(self).current as int),
            toks_view(final(self).tokens@) == toks_view(old(self).tokens@).push(
                tok(
                    (TokenKindView::Number {
                        text: old(self).source@.subrange(
                            old(self).start as int,
                            number_end(old(self).source@, old(self).current as int),
                        ),
                    }),
                    old(self).line as int,
                ),
            ),
    {
        while self.current < self.source.len() && is_digit(self.source[self.current])
            invariant
                self.wf(),
                self.source == old(self).source,
                self.tokens == old(self).tokens,
                self.start == old(self).start,
                self.line == old(self).line,
                old(self).current <= self.current,
                scan_number_int(
                    self.source@,
                    self.start as int,
                    self.current as int,
                    self.line as int,
                ) == scan_number_int(
                    old(self).source@,
                    old(self).start as int,
                    old(self).current as int,
                    old(self).line as int,
                ),
                digit_run_end(self.source@, old(self).current as int) == digit_run_end(
                    self.source@,
                    self.current as int,
                ),
            decreases self.source@.len() - self.current,
        {
            self.next();
        }
        let ghost d: int = self.current as int;
        if self.current < self.source.len() && self.source[self.current] == '.' {
            if self.current + 1 < self.source.len() && is_digit(self.source[self.current + 1]) {
                self.next();
                while self.current < self.source.len() && is_digit(self.source[self.current])
                    invariant
                        self.wf(),
                        self.source == old(self).source,
                        self.tokens == old(self).tokens,
                        self.start == old(self).start,
                        self.line == old(self).line,
                        old(self).current <= self.current,
                        scan_number_frac(
                            self.source@,
                            self.start as int,
                            self.current as int,
                            self.line as int,
                        ) == scan_number_int(
                            old(self).source@,
                            old(self).start as int,
                            old(self).current as int,
                            old(self).line as int,
                        ),
                        d == digit_run_end(self.source@, old(self).current as int),
                        d + 1 < self.source@.len(),
                        self.source@[d] == '.',
                        is_digit_char(self.source@[d + 1]),
                        d + 1 <= self.current,
                        digit_run_end(self.source@, d + 1) == digit_run_end(
                            self.source@,
                            self.current as int,
                        ),
                    decreases self.source@.len() - self.current,
                {
                    self.next();
                }
            }
        }
        let lo = self.start;
        let hi = self.current;
        let value = self.lexeme(lo, hi);
        self.add_token(TokenKind::Number(value));
    }

    /// Scans an identifier or reserved word whose first character, at
    /// `start`, has been consumed: the maximal run of
    /// alphanumeric-or-underscore characters, then an exact, case-sensitive
    /// lookup in the reserved-word table.
    pub fn scan_identifier(&mut self)
        requires
            old(self).wf(),
        ensures
            final(self).wf(),
            final(self).source == old(self).source,
            final(self).start == old(self).start,
            old(self).current <= final(self).current,
            emitted(
                toks_view(final(self).tokens@),
                scan_at(final(self).source@, final(self).current as int, final(self).line as int),
            ) == emitted(
                toks_view(old(self).tokens@),
                scan_identifier_from(
                    old(self).source@,
                    old(self).start as int,
                    old(self).current as int,
                    old(self).line as int,
                ),
            ),
            final(self).line == old(self).line,
            final(self).current == ident_run_end(old(self).source@, old(self).current as int),
            toks_view(final(self).tokens@) == toks_view(old(self).tokens@).push(
                tok(
                    keyword_or_identifier(
                        old(self).source@.subrange(
                            old(self).start as int,
                            ident_run_end(old(self).source@, old(self).current as int),
                        ),
                    ),
                    old(self).line as int,
                ),
            ),
    {
        while self.current < self.source.len() && is_alpha_numeric(self.source[self.current])
            invariant
                self.wf(),
                self.source == old(self).source,
                self.tokens == old(self).tokens,
                self.start == old(self).start,
                self.line == old(self).line,
                old(self).current <= self.current,
                scan_identifier_from(
                    self.source@,
                    self.start as int,
                    self.current as int,
                    self.line as int,
                ) == scan_identifier_from(
                    old(self).source@,
                    old(self).start as int,
                    old(self).current as int,
                    old(self).line as int,
                ),
                ident_run_end(self.source@, old(self).current as int) == ident_run_end(
                    self.source@,
                    self.current as int,
                ),
            decreases self.source@.len() - self.current,
        {
            self.next();
        }
        let lo = self.start;
        let hi = self.current;
        let value = self.lexeme(lo, hi);
        let kind = if is_word(&value, "and") {
            TokenKind::And
        } else if is_word(&value, "class") {
            TokenKind::Class
        } else if is_word(&value, "else") {
            TokenKind::Else
        } else if is_word(&value, "false") {
            TokenKind::False
        } else if is_word(&value, "for") {
            TokenKind::For
        } else if is_word(&value, "fun") {
            TokenKind::Fun
        } else if is_word(&value, "if") {
            TokenKind::If
        } else if is_word(&value, "nil") {
            TokenKind::Nil
        } else if is_word(&value, "or") {
            TokenKind::Or
        } else if is_word(&value, "print") {
            TokenKind::Print
        } else if is_word(&value, "return") {
            TokenKind::Return
        } else if is_word(&value, "super") {
            TokenKind::Super
        } else if is_word(&value, "this") {
            TokenKind::This
        } else if is_word(&value, "true") {
            TokenKind::True
        } else if is_word(&value, "var") {
            TokenKind::Var
        } else if is_word(&value, "while") {
            TokenKind::While
        } else {
            TokenKind::Identifier(value)
        };
        proof {
            assert(kind@ == keyword_or_identifier(
                self.source@.subrange(self.start as int, self.current as int),
            ));
        }
        self.add_token(kind);
    }

    /// The source text between two offsets, as a string.
    pub fn lexeme(&self, lo: usize, hi: usize) -> (r: String)
        requires
            lo <= hi <= self.source@.len(),
        ensures
            r@ == self.source@.subrange(lo as int, hi as int),
    {
        let mut buf: Vec<char> = Vec::new();
        let mut i: usize = lo;
        while i < hi
            invariant
                lo <= i <= hi <= self.source@.len(),
                buf@ == self.source@.subrange(lo as int, i as int),
            decreases hi - i,
        {
            buf.push(self.source[i]);
            i = i + 1;
            proof {
                assert(buf@ =~= self.source@.subrange(lo as int, i as int));
            }
        }
        string_from_chars(buf)
    }
}

} // verus!
