//! The mathematical model of scanning.
//!
//! `scan_spec` defines, purely over the character sequence of the source,
//! which token sequence (or which lexical error) a source text scans to.
//! It walks the text with the same one- and two-character lookahead the
//! executable scanner uses; the executable scanner is proved against it.

use vstd::prelude::*;

use crate::token::{ScanErrorView, Token, TokenKindView, TokenView};

verus! {

/// The outcome of scanning a suffix of the source: the tokens it contributes,
/// or the lexical error that aborts the scan.
pub type ScanOutcome = Result<Seq<TokenView>, ScanErrorView>;

/// Decimal digit.
pub open spec fn is_digit_char(c: char) -> bool {
    '0' <= c && c <= '9'
}

/// ASCII letter or underscore: what may start an identifier.
pub open spec fn is_alpha_char(c: char) -> bool {
    ('a' <= c && c <= 'z') || ('A' <= c && c <= 'Z') || c == '_'
}

/// What may continue an identifier.
pub open spec fn is_alpha_numeric_char(c: char) -> bool {
    is_alpha_char(c) || is_digit_char(c)
}

/// The reserved-word table: an exact, case-sensitive match yields the keyword
/// kind; every other identifier-shaped lexeme is an identifier.
pub open spec fn keyword_or_identifier(w: Seq<char>) -> TokenKindView {
    if w == "and"@ {
        TokenKindView::And
    } else if w == "class"@ {
        TokenKindView::Class
    } else if w == "else"@ {
        TokenKindView::Else
    } else if w == "false"@ {
        TokenKindView::False
    } else if w == "for"@ {
        TokenKindView::For
    } else if w == "fun"@ {
        TokenKindView::Fun
    } else if w == "if"@ {
        TokenKindView::If
    } else if w == "nil"@ {
        TokenKindView::Nil
    } else if w == "or"@ {
        TokenKindView::Or
    } else if w == "print"@ {
        TokenKindView::Print
    } else if w == "return"@ {
        TokenKindView::Return
    } else if w == "super"@ {
        TokenKindView::Super
    } else if w == "this"@ {
        TokenKindView::This
    } else if w == "true"@ {
        TokenKindView::True
    } else if w == "var"@ {
        TokenKindView::Var
    } else if w == "while"@ {
        TokenKindView::While
    } else {
        TokenKindView::Identifier { name: w }
    }
}

/// A token of the given kind on the given line.
pub open spec fn tok(kind: TokenKindView, line: int) -> TokenView {
    TokenView { kind, line }
}

/// Prepends already-emitted tokens to the outcome of scanning the rest.
pub open spec fn emitted(p: Seq<TokenView>, r: ScanOutcome) -> ScanOutcome {
    match r {
        Ok(ts) => Ok(p + ts),
        Err(e) => Err(e),
    }
}

/// Emits one token, then the outcome of scanning the rest.
pub open spec fn emit(t: TokenView, r: ScanOutcome) -> ScanOutcome {
    emitted(seq![t], r)
}

/// Scanning from a lexeme boundary: position `i` is the next unread
/// character, `line` the 1-based line it lies on.
pub open spec fn scan_at(s: Seq<char>, i: int, line: int) -> ScanOutcome
    decreases s.len() - i, 0int,
{
    if i < 0 || i >= s.len() {
        Ok(Seq::empty())
    } else {
        let c = s[i];
        if c == '(' {
            emit(tok(TokenKindView::LeftParen, line), scan_at(s, i + 1, line))
        } else if c == ')' {
            emit(tok(TokenKindView::RightParen, line), scan_at(s, i + 1, line))
        } else if c == '{' {
            emit(tok(TokenKindView::LeftBrace, line), scan_at(s, i + 1, line))
        } else if c == '}' {
            emit(tok(TokenKindView::RightBrace, line), scan_at(s, i + 1, line))
        } else if c == ',' {
            emit(tok(TokenKindView::Comma, line), scan_at(s, i + 1, line))
        } else if c == '.' {
            emit(tok(TokenKindView::Dot, line), scan_at(s, i + 1, line))
        } else if c == '-' {
            emit(tok(TokenKindView::Minus, line), scan_at(s, i + 1, line))
        } else if c == '+' {
            emit(tok(TokenKindView::Plus, line), scan_at(s, i + 1, line))
        } else if c == ';' {
            emit(tok(TokenKindView::Semicolon, line), scan_at(s, i + 1, line))
        } else if c == '*' {
            emit(tok(TokenKindView::Star, line), scan_at(s, i + 1, line))
        } else if c == '!' {
            if i + 1 < s.len() && s[i + 1] == '=' {
                emit(tok(TokenKindView::BangEqual, line), scan_at(s, i + 2, line))
            } else {
                emit(tok(TokenKindView::Bang, line), scan_at(s, i + 1, line))
            }
        } else if c == '=' {
            if i + 1 < s.len() && s[i + 1] == '=' {
                emit(tok(TokenKindView::EqualEqual, line), scan_at(s, i + 2, line))
            } else {
                emit(tok(TokenKindView::Equal, line), scan_at(s, i + 1, line))
            }
        } else if c == '<' {
            if i + 1 < s.len() && s[i + 1] == '=' {
                emit(tok(TokenKindView::LessEqual, line), scan_at(s, i + 2, line))
            } else {
                emit(tok(TokenKindView::Less, line), scan_at(s, i + 1, line))
            }
        } else if c == '>' {
            if i + 1 < s.len() && s[i + 1] == '=' {
                emit(tok(TokenKindView::GreaterEqual, line), scan_at(s, i + 2, line))
            } else {
                emit(tok(TokenKindView::Greater, line), scan_at(s, i + 1, line))
            }
        } else if c == '/' {
            if i + 1 < s.len() && s[i + 1] == '/' {
                scan_line_comment_from(s, i + 2, line)
            } else if i + 1 < s.len() && s[i + 1] == '*' {
                scan_block_comment_from(s, 0, i + 2, line)
            } else {
                emit(tok(TokenKindView::Slash, line), scan_at(s, i + 1, line))
            }
        } else if c == '"' {
            scan_string_from(s, i, i + 1, line)
        } else if is_digit_char(c) {
            scan_number_int(s, i, i + 1, line)
        } else if is_alpha_char(c) {
            scan_identifier_from(s, i, i + 1, line)
        } else if c == ' ' || c == '\r' || c == '\t' {
            scan_at(s, i + 1, line)
        } else if c == '\n' {
            scan_at(s, i + 1, line + 1)
        } else {
            Err(ScanErrorView::UnexpectedCharacter { line })
        }
    }
}

/// Inside a line comment (after `//`): everything up to, but not including,
/// the next newline is discarded.
pub open spec fn scan_line_comment_from(s: Seq<char>, i: int, line: int) -> ScanOutcome
    decreases s.len() - i, 1int,
{
    if i < 0 || i >= s.len() {
        Ok(Seq::empty())
    } else if s[i] == '\n' {
        scan_at(s, i, line)
    } else {
        scan_line_comment_from(s, i + 1, line)
    }
}

/// Inside a block comment (after `/*`), at nesting `depth`: a `*/` at depth 0
/// closes the comment; input ending first silently ends the scan. Newlines
/// inside the comment still advance the line counter.
pub open spec fn scan_block_comment_from(s: Seq<char>, depth: int, i: int, line: int) -> ScanOutcome
    decreases s.len() - i, 1int,
{
    if i < 0 || i >= s.len() {
        Ok(Seq::empty())
    } else {
        let c = s[i];
        if c == '/' && i + 1 < s.len() && s[i + 1] == '*' {
            scan_block_comment_from(s, depth + 1, i + 2, line)
        } else if c == '*' && i + 1 < s.len() && s[i + 1] == '/' {
            if depth == 0 {
                scan_at(s, i + 2, line)
            } else {
                scan_block_comment_from(s, depth - 1, i + 2, line)
            }
        } else if c == '\n' {
            scan_block_comment_from(s, depth, i + 1, line + 1)
        } else {
            scan_block_comment_from(s, depth, i + 1, line)
        }
    }
}

/// Inside a string literal whose opening quote is at `open_quote`: characters
/// run to the closing quote (newlines are allowed and advance the line
/// counter); input ending first is an unterminated-string error at the line
/// the search reached. The token's text is exactly the characters between the
/// quotes, and its line is the line of the closing quote.
pub open spec fn scan_string_from(s: Seq<char>, open_quote: int, i: int, line: int) -> ScanOutcome
    decreases s.len() - i, 1int,
{
    if i < 0 || i >= s.len() {
        Err(ScanErrorView::UnterminatedString { line })
    } else if s[i] == '"' {
        emit(
            tok(TokenKindView::StringLit { text: s.subrange(open_quote + 1, i) }, line),
            scan_at(s, i + 1, line),
        )
    } else if s[i] == '\n' {
        scan_string_from(s, open_quote, i + 1, line + 1)
    } else {
        scan_string_from(s, open_quote, i + 1, line)
    }
}

/// Inside a number literal's integer part, which began at `start`: a maximal
/// digit run, then a fractional part only if a `.` is followed by a digit
/// (two-character lookahead); a trailing `.` is left for the next lexeme.
pub open spec fn scan_number_int(s: Seq<char>, start: int, i: int, line: int) -> ScanOutcome
    decreases s.len() - i, 1int,
{
    if 0 <= i && i < s.len() && is_digit_char(s[i]) {
        scan_number_int(s, start, i + 1, line)
    } else if 0 <= i && i + 1 < s.len() && s[i] == '.' && is_digit_char(s[i + 1]) {
        scan_number_frac(s, start, i + 1, line)
    } else {
        emit(
            tok(TokenKindView::Number { text: s.subrange(start, i) }, line),
            scan_at(s, i, line),
        )
    }
}

/// Inside a number literal's fractional part (past the `.`).
pub open spec fn scan_number_frac(s: Seq<char>, start: int, i: int, line: int) -> ScanOutcome
    decreases s.len() - i, 1int,
{
    if 0 <= i && i < s.len() && is_digit_char(s[i]) {
        scan_number_frac(s, start, i + 1, line)
    } else {
        emit(
            tok(TokenKindView::Number { text: s.subrange(start, i) }, line),
            scan_at(s, i, line),
        )
    }
}

/// Inside an identifier or reserved word, which began at `start`: a maximal
/// run of alphanumeric-or-underscore characters, then the keyword lookup.
pub open spec fn scan_identifier_from(s: Seq<char>, start: int, i: int, line: int) -> ScanOutcome
    decreases s.len() - i, 1int,
{
    if 0 <= i && i < s.len() && is_alpha_numeric_char(s[i]) {
        scan_identifier_from(s, start, i + 1, line)
    } else {
        emit(
            tok(keyword_or_identifier(s.subrange(start, i)), line),
            scan_at(s, i, line),
        )
    }
}

/// The index of the first occurrence of `c` at or after `i`, if any.
pub open spec fn first_at_or_after(s: Seq<char>, c: char, i: int) -> Option<int>
    decreases s.len() - i,
{
    if i < 0 || i >= s.len() {
        None
    } else if s[i] == c {
        Some(i)
    } else {
        first_at_or_after(s, c, i + 1)
    }
}

/// The number of newline characters in `s[lo..hi]`.
pub open spec fn newline_count(s: Seq<char>, lo: int, hi: int) -> int
    decreases hi - lo,
{
    if lo < 0 || hi > s.len() || lo >= hi {
        0
    } else {
        newline_count(s, lo, hi - 1) + if s[hi - 1] == '\n' {
            1int
        } else {
            0int
        }
    }
}

/// The end of the maximal digit run starting at `i`.
pub open spec fn digit_run_end(s: Seq<char>, i: int) -> int
    decreases s.len() - i,
{
    if 0 <= i && i < s.len() && is_digit_char(s[i]) {
        digit_run_end(s, i + 1)
    } else {
        i
    }
}

/// The end of a number lexeme being read at `i` (just past its first digit):
/// the maximal digit run, and past it a fractional part exactly when a `.`
/// is followed by another digit, so a trailing `.` lies beyond the lexeme.
pub open spec fn number_end(s: Seq<char>, i: int) -> int {
    let d = digit_run_end(s, i);
    if d + 1 < s.len() && s[d] == '.' && is_digit_char(s[d + 1]) {
        digit_run_end(s, d + 1)
    } else {
        d
    }
}

/// The end of the maximal alphanumeric-or-underscore run starting at `i`.
pub open spec fn ident_run_end(s: Seq<char>, i: int) -> int
    decreases s.len() - i,
{
    if 0 <= i && i < s.len() && is_alpha_numeric_char(s[i]) {
        ident_run_end(s, i + 1)
    } else {
        i
    }
}

/// One past the `*/` that closes a block comment read from position `i` at
/// nesting `depth`, or the input's end if the comment never closes.
pub open spec fn block_comment_end(s: Seq<char>, depth: int, i: int) -> int
    decreases s.len() - i,
{
    if i < 0 || i >= s.len() {
        s.len() as int
    } else {
        let c = s[i];
        if c == '/' && i + 1 < s.len() && s[i + 1] == '*' {
            block_comment_end(s, depth + 1, i + 2)
        } else if c == '*' && i + 1 < s.len() && s[i + 1] == '/' {
            if depth == 0 {
                i + 2
            } else {
                block_comment_end(s, depth - 1, i + 2)
            }
        } else {
            block_comment_end(s, depth, i + 1)
        }
    }
}

/// A stretch holding no newline adds nothing to the newline count.
pub proof fn lemma_newline_count_extend(s: Seq<char>, lo: int, a: int, b: int)
    requires
        0 <= lo <= a <= b <= s.len(),
        forall|k: int| a <= k < b ==> s[k] != '\n',
    ensures
        newline_count(s, lo, b) == newline_count(s, lo, a),
    decreases b - a,
{
    if a < b {
        lemma_newline_count_extend(s, lo, a, b - 1);
    }
}

/// What a whole source text scans to: scanning starts at the first character,
/// on line 1, with nothing emitted yet.
pub open spec fn scan_spec(s: Seq<char>) -> ScanOutcome {
    scan_at(s, 0, 1)
}

/// The views of a sequence of tokens.
pub open spec fn toks_view(ts: Seq<Token>) -> Seq<TokenView> {
    ts.map_values(|t: Token| t@)
}

/// Appending one more emitted token moves it into the outcome's prefix.
pub broadcast proof fn lemma_toks_view_push(ts: Seq<Token>, t: Token)
    ensures
        #[trigger] toks_view(ts.push(t)) == toks_view(ts) + seq![t@],
{
    assert(toks_view(ts.push(t)) =~= toks_view(ts) + seq![t@]);
}

/// Emitted prefixes compose: emitting `p`, then `q`, then the rest is the
/// same as emitting `p + q` and then the rest.
pub broadcast proof fn lemma_emitted_assoc(p: Seq<TokenView>, q: Seq<TokenView>, r: ScanOutcome)
    ensures
        emitted(p, emitted(q, r)) == #[trigger] emitted(p + q, r),
{
    match r {
        Ok(ts) => {
            assert(p + (q + ts) =~= (p + q) + ts);
        },
        Err(e) => {},
    }
}

/// An empty emitted prefix changes nothing.
pub broadcast proof fn lemma_emitted_empty(r: ScanOutcome)
    ensures
        #[trigger] emitted(Seq::<TokenView>::empty(), r) == r,
{
    match r {
        Ok(ts) => {
            assert(Seq::<TokenView>::empty() + ts =~= ts);
        },
        Err(e) => {},
    }
}

/// Digits at every position of `w[lo..hi]`.
pub open spec fn digits_in(w: Seq<char>, lo: int, hi: int) -> bool {
    forall|k: int| lo <= k < hi ==> is_digit_char(#[trigger] w[k])
}

/// The shape of a number lexeme: one or more digits, optionally followed by
/// `.` and one or more digits.
pub open spec fn is_number_lexeme(w: Seq<char>) -> bool {
    ||| (w.len() >= 1 && digits_in(w, 0, w.len() as int))
    ||| (exists|p: int|
        #![trigger w[p]]
        1 <= p && p + 1 < w.len() && w[p] == '.' && digits_in(w, 0, p) && digits_in(
            w,
            p + 1,
            w.len() as int,
        ))
}

/// A token safe for numeric conversion: if it is a `Number`, its text has
/// the number-lexeme shape.
pub open spec fn token_number_shaped(t: TokenView) -> bool {
    t.kind matches TokenKindView::Number { text } ==> is_number_lexeme(text)
}

/// Every token of a successful outcome is [`token_number_shaped`].
pub open spec fn ok_numbers_shaped(r: ScanOutcome) -> bool {
    r matches Ok(ts) ==> forall|k: int| 0 <= k < ts.len() ==> token_number_shaped(#[trigger] ts[k])
}

proof fn lemma_emit_shaped(t: TokenView, r: ScanOutcome)
    requires
        token_number_shaped(t),
        ok_numbers_shaped(r),
    ensures
        ok_numbers_shaped(emit(t, r)),
{
    match r {
        Ok(ts) => {
            let all = seq![t] + ts;
            assert forall|k: int| 0 <= k < all.len() implies token_number_shaped(all[k]) by {
                if k == 0 {
                    assert(all[0] == t);
                } else {
                    assert(all[k] == ts[k - 1]);
                }
            }
        },
        Err(e) => {},
    }
}

proof fn shape_emit_cont(s: Seq<char>, t: TokenView, i: int, line: int)
    requires
        token_number_shaped(t),
        i <= s.len(),
    ensures
        ok_numbers_shaped(emit(t, scan_at(s, i, line))),
    decreases s.len() - i, 1int,
{
    shape_at(s, i, line);
    lemma_emit_shaped(t, scan_at(s, i, line));
}

proof fn shape_at(s: Seq<char>, i: int, line: int)
    requires
        i <= s.len(),
    ensures
        ok_numbers_shaped(scan_at(s, i, line)),
    decreases s.len() - i, 0int,
{
    if i < 0 || i >= s.len() {
    } else {
        let c: char = s[i];
        if c == '(' {
            shape_emit_cont(s, tok(TokenKindView::LeftParen, line), i + 1, line);
        } else if c == ')' {
            shape_emit_cont(s, tok(TokenKindView::RightParen, line), i + 1, line);
        } else if c == '{' {
            shape_emit_cont(s, tok(TokenKindView::LeftBrace, line), i + 1, line);
        } else if c == '}' {
            shape_emit_cont(s, tok(TokenKindView::RightBrace, line), i + 1, line);
        } else if c == ',' {
            shape_emit_cont(s, tok(TokenKindView::Comma, line), i + 1, line);
        } else if c == '.' {
            shape_emit_cont(s, tok(TokenKindView::Dot, line), i + 1, line);
        } else if c == '-' {
            shape_emit_cont(s, tok(TokenKindView::Minus, line), i + 1, line);
        } else if c == '+' {
            shape_emit_cont(s, tok(TokenKindView::Plus, line), i + 1, line);
        } else if c == ';' {
            shape_emit_cont(s, tok(TokenKindView::Semicolon, line), i + 1, line);
        } else if c == '*' {
            shape_emit_cont(s, tok(TokenKindView::Star, line), i + 1, line);
        } else if c == '!' {
            if i + 1 < s.len() && s[i + 1] == '=' {
                shape_emit_cont(s, tok(TokenKindView::BangEqual, line), i + 2, line);
            } else {
                shape_emit_cont(s, tok(TokenKindView::Bang, line), i + 1, line);
            }
        } else if c == '=' {
            if i + 1 < s.len() && s[i + 1] == '=' {
                shape_emit_cont(s, tok(TokenKindView::EqualEqual, line), i + 2, line);
            } else {
                shape_emit_cont(s, tok(TokenKindView::Equal, line), i + 1, line);
            }
        } else if c == '<' {
            if i + 1 < s.len() && s[i + 1] == '=' {
                shape_emit_cont(s, tok(TokenKindView::LessEqual, line), i + 2, line);
            } else {
                shape_emit_cont(s, tok(TokenKindView::Less, line), i + 1, line);
            }
        } else if c == '>' {
            if i + 1 < s.len() && s[i + 1] == '=' {
                shape_emit_cont(s, tok(TokenKindView::GreaterEqual, line), i + 2, line);
            } else {
                shape_emit_cont(s, tok(TokenKindView::Greater, line), i + 1, line);
            }
        } else if c == '/' {
            if i + 1 < s.len() && s[i + 1] == '/' {
                shape_line_comment(s, i + 2, line);
            } else if i + 1 < s.len() && s[i + 1] == '*' {
                shape_block_comment(s, 0, i + 2, line);
            } else {
                shape_emit_cont(s, tok(TokenKindView::Slash, line), i + 1, line);
            }
        } else if c == '"' {
            shape_string(s, i, i + 1, line);
        } else if is_digit_char(c) {
            shape_number_int(s, i, i + 1, line);
        } else if is_alpha_char(c) {
            shape_identifier(s, i, i + 1, line);
        } else if c == ' ' || c == '\r' || c == '\t' {
            shape_at(s, i + 1, line);
        } else if c == '\n' {
            shape_at(s, i + 1, line + 1);
        } else {
        }
    }
}

proof fn shape_line_comment(s: Seq<char>, i: int, line: int)
    requires
        i <= s.len(),
    ensures
        ok_numbers_shaped(scan_line_comment_from(s, i, line)),
    decreases s.len() - i, 2int,
{
    if i < 0 || i >= s.len() {
    } else if s[i] == '\n' {
        shape_at(s, i, line);
    } else {
        shape_line_comment(s, i + 1, line);
    }
}

proof fn shape_block_comment(s: Seq<char>, depth: int, i: int, line: int)
    requires
        i <= s.len(),
    ensures
        ok_numbers_shaped(scan_block_comment_from(s, depth, i, line)),
    decreases s.len() - i, 2int,
{
    if i < 0 || i >= s.len() {
    } else {
        let c: char = s[i];
        if c == '/' && i + 1 < s.len() && s[i + 1] == '*' {
            shape_block_comment(s, depth + 1, i + 2, line);
        } else if c == '*' && i + 1 < s.len() && s[i + 1] == '/' {
            if depth == 0 {
                shape_at(s, i + 2, line);
            } else {
                shape_block_comment(s, depth - 1, i + 2, line);
            }
        } else if c == '\n' {
            shape_block_comment(s, depth, i + 1, line + 1);
        } else {
            shape_block_comment(s, depth, i + 1, line);
        }
    }
}

proof fn shape_string(s: Seq<char>, open_quote: int, i: int, line: int)
    requires
        i <= s.len(),
    ensures
        ok_numbers_shaped(scan_string_from(s, open_quote, i, line)),
    decreases s.len() - i, 2int,
{
    if i < 0 || i >= s.len() {
    } else if s[i] == '"' {
        shape_emit_cont(
            s,
            tok((TokenKindView::StringLit { text: s.subrange(open_quote + 1, i) }), line),
            i + 1,
            line,
        );
    } else if s[i] == '\n' {
        shape_string(s, open_quote, i + 1, line + 1);
    } else {
        shape_string(s, open_quote, i + 1, line);
    }
}

proof fn shape_number_int(s: Seq<char>, start: int, i: int, line: int)
    requires
        0 <= start < i <= s.len(),
        forall|k: int| start <= k < i ==> is_digit_char(#[trigger] s[k]),
    ensures
        ok_numbers_shaped(scan_number_int(s, start, i, line)),
    decreases s.len() - i, 2int,
{
    if 0 <= i && i < s.len() && is_digit_char(s[i]) {
        shape_number_int(s, start, i + 1, line);
    } else if 0 <= i && i + 1 < s.len() && s[i] == '.' && is_digit_char(s[i + 1]) {
        shape_number_frac(s, start, i, i + 1, line);
    } else {
        let w = s.subrange(start, i);
        assert forall|k: int| 0 <= k < w.len() implies is_digit_char(w[k]) by {
            assert(w[k] == s[start + k]);
        }
        assert(is_number_lexeme(w));
        shape_emit_cont(s, tok((TokenKindView::Number { text: w }), line), i, line);
    }
}

proof fn shape_number_frac(s: Seq<char>, start: int, pdot: int, i: int, line: int)
    requires
        0 <= start < pdot,
        pdot < i <= s.len(),
        s[pdot] == '.',
        forall|k: int| start <= k < pdot ==> is_digit_char(#[trigger] s[k]),
        forall|k: int| pdot < k < i ==> is_digit_char(#[trigger] s[k]),
        i == pdot + 1 ==> i < s.len() && is_digit_char(s[i]),
    ensures
        ok_numbers_shaped(scan_number_frac(s, start, i, line)),
    decreases s.len() - i, 2int,
{
    if 0 <= i && i < s.len() && is_digit_char(s[i]) {
        shape_number_frac(s, start, pdot, i + 1, line);
    } else {
        let w = s.subrange(start, i);
        let p: int = pdot - start;
        assert(i > pdot + 1);
        assert(w[p] == s[pdot]);
        assert forall|k: int| 0 <= k < p implies is_digit_char(w[k]) by {
            assert(w[k] == s[start + k]);
        }
        assert forall|k: int| p + 1 <= k < w.len() implies is_digit_char(w[k]) by {
            assert(w[k] == s[start + k]);
        }
        assert(is_number_lexeme(w));
        shape_emit_cont(s, tok((TokenKindView::Number { text: w }), line), i, line);
    }
}

proof fn shape_identifier(s: Seq<char>, start: int, i: int, line: int)
    requires
        0 <= start < i <= s.len(),
    ensures
        ok_numbers_shaped(scan_identifier_from(s, start, i, line)),
    decreases s.len() - i, 2int,
{
    if 0 <= i && i < s.len() && is_alpha_numeric_char(s[i]) {
        shape_identifier(s, start, i + 1, line);
    } else {
        shape_emit_cont(s, tok(keyword_or_identifier(s.subrange(start, i)), line), i, line);
    }
}

/// Every `Number` token the scan emits carries a lexeme of the number
/// shape — digits, optionally followed by `.` and another digit run — so
/// converting the text to a numeric value cannot fail.
pub proof fn lemma_scan_numbers_shaped(s: Seq<char>)
    ensures
        ok_numbers_shaped(scan_spec(s)),
{
    shape_at(s, 0, 1);
}

/// Scanning is a pure function of the source text: sources with the same
/// characters always scan to the same outcome, so re-scanning a buffer
/// yields an identical token sequence or the identical error.
pub proof fn lemma_scan_deterministic(s1: Seq<char>, s2: Seq<char>)
    requires
        s1 =~= s2,
    ensures
        scan_spec(s1) == scan_spec(s2),
{
    assert(s1 == s2);
}

} // verus!
