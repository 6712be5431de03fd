//! Lexer for the assembly language: turns source text into a stream of
//! tokens, keeping track of line and column positions for error
//! reporting.
//!
//! [`RawLexer`] is the low-level tokenizer; it is not peekable and, once
//! it hits an error, keeps returning that error. [`Lexer`] wraps it with
//! one token of lookahead and returns an error only once.
//!
//! The tokenizer is specified by the spec function [`lex_next`], a
//! function of the remaining characters and the current position alone.

use vstd::prelude::*;
use vstd::string::StrSliceExecFns;

verus! {

/// Copies the characters of a string slice into a vector, so that the
/// rest of the lexer can work on a plain `Vec<char>`.
pub fn chars_of(s: &str) -> (r: Vec<char>)
    ensures
        r@ == s@,
{
    let n = s.unicode_len();
    let mut v: Vec<char> = Vec::new();
    let mut i: usize = 0;
    while i < n
        invariant
            i <= n,
            n == s@.len(),
            v@ == s@.subrange(0, i as int),
        decreases n - i,
    {
        let c = s.get_char(i);
        v.push(c);
        proof {
            assert(v@ =~= s@.subrange(0, i + 1));
        }
        i = i + 1;
    }
    proof {
        assert(v@ =~= s@);
    }
    v
}

/// Character-by-character string equality, usable from verified code.
pub fn str_eq(a: &str, b: &str) -> (r: bool)
    ensures
        r == (a@ == b@),
{
    let n = a.unicode_len();
    let m = b.unicode_len();
    if n != m {
        proof {
            assert(a@.len() != b@.len());
        }
        return false;
    }
    let mut i: usize = 0;
    while i < n
        invariant
            i <= n,
            n == a@.len(),
            n == b@.len(),
            forall|j: int| 0 <= j < i ==> a@[j] == b@[j],
        decreases n - i,
    {
        let ca = a.get_char(i);
        let cb = b.get_char(i);
        if ca != cb {
            proof {
                assert(a@[i as int] != b@[i as int]);
            }
            return false;
        }
        i = i + 1;
    }
    proof {
        assert(a@ =~= b@);
    }
    true
}

/// Appends one character to a string.
///
/// Relies on `String::push`: it appends exactly the given character.
#[verifier::external_body]
fn push_char(s: &mut String, c: char)
    ensures
        final(s)@ == old(s)@.push(c),
{
    s.push(c)
}

/// Takes the longest prefix of `s` whose characters satisfy `predicate`,
/// or `None` when that prefix is empty.
pub fn consume<'a, F: Fn(char) -> bool>(s: &'a str, predicate: F) -> (r: Option<&'a str>)
    requires
        forall|c: char| #[trigger] call_requires(predicate, (c,)),
    ensures
        match r {
            Some(p) => {
                &&& exists|k: int|
                    {
                        &&& 1 <= k <= s@.len()
                        &&& p@ == s@.subrange(0, k)
                        &&& (forall|j: int|
                            0 <= j < k ==> call_ensures(predicate, (s@[j],), true))
                        &&& (k < s@.len() ==> call_ensures(predicate, (s@[k],), false))
                    }
            },
            None => s@.len() == 0 || call_ensures(predicate, (s@[0],), false),
        },
{
    let n = s.unicode_len();
    let mut k: usize = 0;
    while k < n
        invariant
            k <= n,
            n == s@.len(),
            forall|c: char| #[trigger] call_requires(predicate, (c,)),
            forall|j: int| 0 <= j < k ==> call_ensures(predicate, (s@[j],), true),
        decreases n - k,
    {
        let c = s.get_char(k);
        if !predicate(c) {
            if k == 0 {
                return None;
            }
            let p = s.substring_char(0, k);
            return Some(p);
        }
        k = k + 1;
    }
    if k == 0 {
        None
    } else {
        let p = s.substring_char(0, k);
        Some(p)
    }
}

// ---------------------------------------------------------------------
// Character classes
// ---------------------------------------------------------------------

/// The whitespace characters the lexer skips.
pub open spec fn is_space_char(c: char) -> bool {
    c == ' ' || c == '\t' || c == '\n' || c == '\r' || c == '\u{000B}' || c == '\u{000C}'
}

/// ASCII decimal digits.
pub open spec fn is_digit_char(c: char) -> bool {
    48 <= c as u32 <= 57
}

/// ASCII hexadecimal digits.
pub open spec fn is_hex_digit_char(c: char) -> bool {
    is_digit_char(c) || (97 <= c as u32 <= 102) || (65 <= c as u32 <= 70)
}

/// The characters an identifier or label may contain: ASCII letters,
/// digits, and underscore.
pub open spec fn is_ident_char(c: char) -> bool {
    c == '_' || is_digit_char(c) || (97 <= c as u32 <= 122) || (65 <= c as u32 <= 90)
}

/// The numeric value of a digit (`0-9`, `a-f`, `A-F`).
pub open spec fn digit_val(c: char) -> int {
    if is_digit_char(c) {
        c as u32 - 48
    } else if 97 <= c as u32 <= 102 {
        c as u32 - 87
    } else if 65 <= c as u32 <= 70 {
        c as u32 - 55
    } else {
        0
    }
}

/// The whitespace predicate, as a named value so that every use of
/// [`scan`] refers to the same function.
pub open spec fn space_pred() -> spec_fn(char) -> bool {
    |c: char| is_space_char(c)
}

/// Comment text runs to the end of the line.
pub open spec fn comment_pred() -> spec_fn(char) -> bool {
    |c: char| c != '\n'
}

pub open spec fn hex_pred() -> spec_fn(char) -> bool {
    |c: char| is_hex_digit_char(c)
}

pub open spec fn digit_pred() -> spec_fn(char) -> bool {
    |c: char| is_digit_char(c)
}

pub open spec fn ident_pred() -> spec_fn(char) -> bool {
    |c: char| is_ident_char(c)
}

fn is_space(c: char) -> (r: bool)
    ensures
        r == is_space_char(c),
{
    c == ' ' || c == '\t' || c == '\n' || c == '\r' || c == '\u{000B}' || c == '\u{000C}'
}

fn is_digit(c: char) -> (r: bool)
    ensures
        r == is_digit_char(c),
{
    let u = c as u32;
    48 <= u && u <= 57
}

fn is_hex_digit(c: char) -> (r: bool)
    ensures
        r == is_hex_digit_char(c),
{
    let u = c as u32;
    (48 <= u && u <= 57) || (97 <= u && u <= 102) || (65 <= u && u <= 70)
}

fn is_ident(c: char) -> (r: bool)
    ensures
        r == is_ident_char(c),
{
    let u = c as u32;
    c == '_' || (48 <= u && u <= 57) || (97 <= u && u <= 122) || (65 <= u && u <= 90)
}

fn digit_val_exec(c: char) -> (r: u32)
    requires
        is_hex_digit_char(c),
    ensures
        r == digit_val(c),
        r <= 15,
{
    let u = c as u32;
    if 48 <= u && u <= 57 {
        u - 48
    } else if 97 <= u && u <= 102 {
        u - 87
    } else {
        u - 55
    }
}

// ---------------------------------------------------------------------
// Scanning and position tracking, as spec functions
// ---------------------------------------------------------------------

/// The first index at or after `i` whose character fails `p` (or the
/// end of the sequence).
pub open spec fn scan(s: Seq<char>, i: int, p: spec_fn(char) -> bool) -> int
    decreases s.len() - i,
{
    if i < 0 || i >= s.len() || !p(s[i]) {
        i
    } else {
        scan(s, i + 1, p)
    }
}

pub proof fn lemma_scan(s: Seq<char>, i: int, p: spec_fn(char) -> bool)
    requires
        0 <= i <= s.len(),
    ensures
        i <= scan(s, i, p) <= s.len(),
        forall|j: int| i <= j < scan(s, i, p) ==> p(s[j]),
        scan(s, i, p) < s.len() ==> !p(s[scan(s, i, p)]),
    decreases s.len() - i,
{
    if i < s.len() && p(s[i]) {
        lemma_scan(s, i + 1, p);
    }
}

/// Line and column after walking the characters `s[i..j]`, starting from
/// `(line, col)`: a newline bumps the line and resets the column to 1.
pub open spec fn adv_pos(s: Seq<char>, i: int, j: int, line: int, col: int) -> (int, int)
    decreases j - i,
{
    if j <= i {
        (line, col)
    } else {
        let lc = adv_pos(s, i, j - 1, line, col);
        if s[j - 1] == '\n' {
            (lc.0 + 1, 1)
        } else {
            (lc.0, lc.1 + 1)
        }
    }
}

pub proof fn lemma_adv_pos_bounds(s: Seq<char>, i: int, j: int, line: int, col: int)
    requires
        i <= j,
        1 <= line,
        1 <= col,
    ensures
        1 <= adv_pos(s, i, j, line, col).0 <= line + (j - i),
        1 <= adv_pos(s, i, j, line, col).1 <= col + (j - i),
    decreases j - i,
{
    if j > i {
        lemma_adv_pos_bounds(s, i, j - 1, line, col);
    }
}

/// The value of a digit string read in the given base.
pub open spec fn num_val(t: Seq<char>, base: int) -> int
    decreases t.len(),
{
    if t.len() == 0 {
        0
    } else {
        num_val(t.drop_last(), base) * base + digit_val(t.last())
    }
}

pub proof fn lemma_num_val_nonneg(t: Seq<char>, base: int)
    requires
        base >= 1,
    ensures
        num_val(t, base) >= 0,
    decreases t.len(),
{
    if t.len() > 0 {
        lemma_num_val_nonneg(t.drop_last(), base);
        assert(digit_val(t.last()) >= 0);
    }
}

/// Reading one more digit multiplies the prefix value and adds the digit.
pub proof fn lemma_num_val_step(t: Seq<char>, i: int, base: int)
    requires
        0 <= i < t.len(),
    ensures
        num_val(t.take(i + 1), base) == num_val(t.take(i), base) * base + digit_val(t[i]),
{
    assert(t.take(i + 1).drop_last() =~= t.take(i));
    assert(t.take(i + 1).last() == t[i]);
}

/// The value of a digit string is at least the value of any prefix.
pub proof fn lemma_num_val_monotone(t: Seq<char>, i: int, base: int)
    requires
        0 <= i <= t.len(),
        base >= 1,
    ensures
        num_val(t, base) >= num_val(t.take(i), base),
    decreases t.len() - i,
{
    if i < t.len() {
        lemma_num_val_step(t, i, base);
        lemma_num_val_nonneg(t.take(i), base);
        assert(digit_val(t[i]) >= 0);
        assert(num_val(t.take(i), base) * base >= num_val(t.take(i), base)) by (nonlinear_arith)
            requires
                num_val(t.take(i), base) >= 0,
                base >= 1,
        ;
        assert(num_val(t.take(i + 1), base) >= num_val(t.take(i), base));
        lemma_num_val_monotone(t, i + 1, base);
        assert(t.take(t.len() as int) =~= t);
    } else {
        assert(t.take(i) =~= t);
    }
}

// ---------------------------------------------------------------------
// Tokens
// ---------------------------------------------------------------------

/// The kinds of token.
#[derive(Debug, PartialEq, Eq)]
pub enum TokenInner {
    RightParen,
    LeftParen,
    Comma,
    Colon,
    Minus,
    Constant(i32),
    Ident(String),
    SlashComment(String),
    HashComment(String),
}

/// Mathematical view of [`TokenInner`].
pub ghost enum TokV {
    RightParen,
    LeftParen,
    Comma,
    Colon,
    Minus,
    Constant(i32),
    Ident(Seq<char>),
    SlashComment(Seq<char>),
    HashComment(Seq<char>),
}

impl View for TokenInner {
    type V = TokV;

    open spec fn view(&self) -> TokV {
        match self {
            TokenInner::RightParen => TokV::RightParen,
            TokenInner::LeftParen => TokV::LeftParen,
            TokenInner::Comma => TokV::Comma,
            TokenInner::Colon => TokV::Colon,
            TokenInner::Minus => TokV::Minus,
            TokenInner::Constant(v) => TokV::Constant(*v),
            TokenInner::Ident(s) => TokV::Ident(s@),
            TokenInner::SlashComment(s) => TokV::SlashComment(s@),
            TokenInner::HashComment(s) => TokV::HashComment(s@),
        }
    }
}

impl Clone for TokenInner {
    fn clone(&self) -> (r: Self)
        ensures
            r == *self,
    {
        match self {
            TokenInner::RightParen => TokenInner::RightParen,
            TokenInner::LeftParen => TokenInner::LeftParen,
            TokenInner::Comma => TokenInner::Comma,
            TokenInner::Colon => TokenInner::Colon,
            TokenInner::Minus => TokenInner::Minus,
            TokenInner::Constant(v) => TokenInner::Constant(*v),
            TokenInner::Ident(s) => TokenInner::Ident(s.clone()),
            TokenInner::SlashComment(s) => TokenInner::SlashComment(s.clone()),
            TokenInner::HashComment(s) => TokenInner::HashComment(s.clone()),
        }
    }
}

/// Where a token occurred in the source: its line and the half-open
/// range of columns it covers. Lines and columns are 1-based.
#[derive(Debug, Clone, Copy, PartialEq, Eq, Structural)]
pub struct Span {
    pub line: usize,
    pub start: usize,
    pub end: usize,
}

impl Span {
    pub fn new(line: usize, start: usize, end: usize) -> (r: Self)
        ensures
            r == (Span { line, start, end }),
    {
        Span { line, start, end }
    }
}

/// A token with its source position.
#[derive(Debug, PartialEq, Eq)]
pub struct Token {
    pub inner: TokenInner,
    pub span: Span,
}

/// Mathematical view of [`Token`].
#[verifier::ext_equal]
pub ghost struct TokenV {
    pub inner: TokV,
    pub span: Span,
}

impl View for Token {
    type V = TokenV;

    closed spec fn view(&self) -> TokenV {
        TokenV { inner: self.inner@, span: self.span }
    }
}

impl Clone for Token {
    fn clone(&self) -> (r: Self)
        ensures
            r == *self,
    {
        Token { inner: self.inner.clone(), span: self.span }
    }
}

impl Token {
    pub fn new(inner: TokenInner, line: usize, start: usize, end: usize) -> (r: Self)
        ensures
            r@ == (TokenV { inner: inner@, span: Span { line, start, end } }),
    {
        Token { inner, span: Span { line, start, end } }
    }

    /// Extracts the inner token.
    pub fn inner(self) -> (r: TokenInner)
        ensures
            r@ == self@.inner,
    {
        self.inner
    }

    /// The token's source position.
    pub fn span(&self) -> (r: Span)
        ensures
            r == self@.span,
    {
        self.span
    }

    /// Splits the token into its inner token and span.
    pub fn split(self) -> (r: (TokenInner, Span))
        ensures
            r.0@ == self@.inner,
            r.1 == self@.span,
    {
        (self.inner, self.span)
    }

    /// Extracts the text of an identifier token.
    pub fn unwrap_ident(self) -> (r: (String, Span))
        requires
            self@.inner is Ident,
        ensures
            self@.inner == TokV::Ident(r.0@),
            r.1 == self@.span,
    {
        match self.inner {
            TokenInner::Ident(s) => (s, self.span),
            _ => vstd::pervasive::unreached(),
        }
    }

    /// Extracts the value of a constant token.
    pub fn unwrap_constant(self) -> (r: (i32, Span))
        requires
            self@.inner is Constant,
        ensures
            self@.inner == TokV::Constant(r.0),
            r.1 == self@.span,
    {
        match self.inner {
            TokenInner::Constant(v) => (v, self.span),
            _ => vstd::pervasive::unreached(),
        }
    }
}

/// A lexing failure, with its position.
#[derive(Debug, Clone, Copy, PartialEq, Eq, Structural)]
pub struct LexError {
    pub line: usize,
    pub start: usize,
    pub end: usize,
    pub kind: LexErrorKind,
}

/// Why lexing failed.
#[derive(Debug, Clone, Copy, PartialEq, Eq, Structural)]
pub enum LexErrorKind {
    /// A `0x` prefix with no hexadecimal digits after it.
    HexPrefixNoDigits,
    /// A numeric literal too large for its type (hexadecimal constants
    /// must fit in 32 bits, decimal ones in a signed 32-bit integer).
    NumberOverflow,
    /// A character no token can start with.
    UnknownChar,
}

pub type LexResult = Result<Token, LexError>;

// ---------------------------------------------------------------------
// The tokenizer, as a spec function
// ---------------------------------------------------------------------

/// One tokenizer step: the produced item (none at end of input) and the
/// position after it.
#[verifier::ext_equal]
pub ghost struct LexOut {
    pub item: Option<Result<TokenV, LexError>>,
    pub pos: int,
    pub line: int,
    pub col: int,
}

/// What the tokenizer does at `(pos, line, col)`: skip whitespace, then
/// read one token. Single-character tokens first; then `#` and `//`
/// comments running to the end of the line; then hexadecimal constants
/// (`0x` before plain digits, so `0xabc` does not read as `0` and
/// `xabc`); then decimal constants; then identifiers (after digits, so
/// `123` is not a label); anything else is an error. On an error the
/// position does not advance past the whitespace.
pub open spec fn lex_next(s: Seq<char>, pos: int, line: int, col: int) -> LexOut {
    let p = scan(s, pos, space_pred());
    let lc = adv_pos(s, pos, p, line, col);
    let l = lc.0;
    let c = lc.1;
    if p >= s.len() {
        LexOut { item: None, pos: p, line: l, col: c }
    } else {
        let ch = s[p];
        if ch == '(' {
            lex_single(TokV::LeftParen, p, l, c)
        } else if ch == ')' {
            lex_single(TokV::RightParen, p, l, c)
        } else if ch == ',' {
            lex_single(TokV::Comma, p, l, c)
        } else if ch == ':' {
            lex_single(TokV::Colon, p, l, c)
        } else if ch == '-' {
            lex_single(TokV::Minus, p, l, c)
        } else if ch == '#' {
            let q = scan(s, p + 1, comment_pred());
            LexOut {
                item: Some(
                    Ok(
                        TokenV {
                            inner: TokV::HashComment(s.subrange(p + 1, q)),
                            span: span_at(l, c, q - p),
                        },
                    ),
                ),
                pos: q,
                line: l,
                col: c + (q - p),
            }
        } else if ch == '/' && p + 1 < s.len() && s[p + 1] == '/' {
            let q = scan(s, p + 2, comment_pred());
            LexOut {
                item: Some(
                    Ok(
                        TokenV {
                            inner: TokV::SlashComment(s.subrange(p + 2, q)),
                            span: span_at(l, c, q - p),
                        },
                    ),
                ),
                pos: q,
                line: l,
                col: c + (q - p),
            }
        } else if ch == '0' && p + 1 < s.len() && s[p + 1] == 'x' {
            let q = scan(s, p + 2, hex_pred());
            if q == p + 2 {
                LexOut {
                    item: Some(
                        Err(
                            LexError {
                                line: l as usize,
                                start: c as usize,
                                end: (c + 2) as usize,
                                kind: LexErrorKind::HexPrefixNoDigits,
                            },
                        ),
                    ),
                    pos: p,
                    line: l,
                    col: c,
                }
            } else {
                let v = num_val(s.subrange(p + 2, q), 16);
                if v < 0x1_0000_0000 {
                    LexOut {
                        item: Some(
                            Ok(
                                TokenV {
                                    inner: TokV::Constant(
                                        crate::executor::memory::to_signed32(v),
                                    ),
                                    span: span_at(l, c, q - p),
                                },
                            ),
                        ),
                        pos: q,
                        line: l,
                        col: c + (q - p),
                    }
                } else {
                    LexOut {
                        item: Some(
                            Err(
                                LexError {
                                    line: l as usize,
                                    start: c as usize,
                                    end: (c + (q - p)) as usize,
                                    kind: LexErrorKind::NumberOverflow,
                                },
                            ),
                        ),
                        pos: p,
                        line: l,
                        col: c,
                    }
                }
            }
        } else if is_digit_char(ch) {
            let q = scan(s, p, digit_pred());
            let v = num_val(s.subrange(p, q), 10);
            if v <= 0x7fff_ffff {
                LexOut {
                    item: Some(
                        Ok(
                            TokenV {
                                inner: TokV::Constant(v as i32),
                                span: span_at(l, c, q - p),
                            },
                        ),
                    ),
                    pos: q,
                    line: l,
                    col: c + (q - p),
                }
            } else {
                LexOut {
                    item: Some(
                        Err(
                            LexError {
                                line: l as usize,
                                start: c as usize,
                                end: (c + (q - p)) as usize,
                                kind: LexErrorKind::NumberOverflow,
                            },
                        ),
                    ),
                    pos: p,
                    line: l,
                    col: c,
                }
            }
        } else if is_ident_char(ch) {
            let q = scan(s, p, ident_pred());
            LexOut {
                item: Some(
                    Ok(
                        TokenV {
                            inner: TokV::Ident(s.subrange(p, q)),
                            span: span_at(l, c, q - p),
                        },
                    ),
                ),
                pos: q,
                line: l,
                col: c + (q - p),
            }
        } else {
            LexOut {
                item: Some(
                    Err(
                        LexError {
                            line: l as usize,
                            start: c as usize,
                            end: (c + 1) as usize,
                            kind: LexErrorKind::UnknownChar,
                        },
                    ),
                ),
                pos: p,
                line: l,
                col: c,
            }
        }
    }
}

/// A one-character token at `(p, l, c)`.
pub open spec fn lex_single(tok: TokV, p: int, l: int, c: int) -> LexOut {
    LexOut {
        item: Some(Ok(TokenV { inner: tok, span: span_at(l, c, 1) })),
        pos: p + 1,
        line: l,
        col: c + 1,
    }
}

/// The span of a `len`-column token starting at `(l, c)`.
pub open spec fn span_at(l: int, c: int, len: int) -> Span {
    Span { line: l as usize, start: c as usize, end: (c + len) as usize }
}

// ---------------------------------------------------------------------
// The raw lexer
// ---------------------------------------------------------------------

/// Mathematical view of a [`RawLexer`].
#[verifier::ext_equal]
pub ghost struct RawLexV {
    pub src: Seq<char>,
    pub pos: int,
    pub line: int,
    pub col: int,
}

/// Positions stay within the source and 1-based line/column counts stay
/// small enough for position arithmetic not to overflow.
pub open spec fn raw_wf(v: RawLexV) -> bool {
    &&& 0 <= v.pos <= v.src.len()
    &&& v.src.len() < usize::MAX
    &&& 1 <= v.line <= v.pos + 1
    &&& 1 <= v.col <= v.pos + 1
}

/// Low-level lexer over the characters of the source. Not peekable; once
/// it errors it keeps returning that error. [`Lexer`] wraps it.
#[derive(Debug)]
pub struct RawLexer {
    src: Vec<char>,
    pos: usize,
    line: usize,
    col: usize,
}

impl View for RawLexer {
    type V = RawLexV;

    closed spec fn view(&self) -> RawLexV {
        RawLexV { src: self.src@, pos: self.pos as int, line: self.line as int, col: self.col as int }
    }
}

impl RawLexer {
    pub fn new(buf: &str) -> (r: RawLexer)
        ensures
            raw_wf(r@),
            r@.pos == 0 && r@.line == 1 && r@.col == 1,
            buf@.len() < usize::MAX ==> r@.src == buf@,
    {
        let mut src = chars_of(buf);
        if src.len() == usize::MAX {
            // Unreachable for any source that fits in memory; keeps all
            // position arithmetic below `usize::MAX`.
            let _ = src.pop();
        }
        RawLexer { src, pos: 0, line: 1, col: 1 }
    }

    /// The current line, 1-based.
    pub fn line(&self) -> (r: usize)
        ensures
            r == self@.line,
    {
        self.line
    }

    /// The current column, 1-based.
    pub fn column(&self) -> (r: usize)
        ensures
            r == self@.col,
    {
        self.col
    }

    /// Whether only whitespace is left.
    pub fn finished(&self) -> (r: bool)
        requires
            raw_wf(self@),
        ensures
            r == (scan(self@.src, self@.pos, space_pred()) == self@.src.len()),
    {
        proof {
            lemma_scan(self@.src, self@.pos, space_pred());
        }
        let n = self.src.len();
        let mut i: usize = self.pos;
        while i < n && is_space(self.src[i])
            invariant
                self@.pos <= i <= n,
                n == self@.src.len(),
                scan(self@.src, self@.pos, space_pred()) == scan(
                    self@.src,
                    i as int,
                    space_pred(),
                ),
            decreases n - i,
        {
            i = i + 1;
        }
        i == n
    }

    /// Skips whitespace, updating the line and column counters.
    pub fn gobble_whitespace(&mut self)
        requires
            raw_wf(old(self)@),
        ensures
            raw_wf(final(self)@),
            final(self)@.src == old(self)@.src,
            final(self)@.pos == scan(old(self)@.src, old(self)@.pos, space_pred()),
            (final(self)@.line, final(self)@.col) == adv_pos(
                old(self)@.src,
                old(self)@.pos,
                final(self)@.pos,
                old(self)@.line,
                old(self)@.col,
            ),
    {
        let n = self.src.len();
        while self.pos < n && is_space(self.src[self.pos])
            invariant
                raw_wf(self@),
                n == self@.src.len(),
                self@.src == old(self)@.src,
                old(self)@.pos <= self@.pos,
                scan(old(self)@.src, old(self)@.pos, space_pred()) == scan(
                    self@.src,
                    self@.pos,
                    space_pred(),
                ),
                (self@.line, self@.col) == adv_pos(
                    old(self)@.src,
                    old(self)@.pos,
                    self@.pos,
                    old(self)@.line,
                    old(self)@.col,
                ),
            decreases n - self.pos,
        {
            if self.src[self.pos] == '\n' {
                self.line = self.line + 1;
                self.col = 1;
            } else {
                self.col = self.col + 1;
            }
            self.pos = self.pos + 1;
        }
    }

    /// Consumes `len` characters as one token of the given kind,
    /// starting at the current position.
    fn take_token(&mut self, inner: TokenInner, len: usize) -> (t: Token)
        requires
            raw_wf(old(self)@),
            old(self)@.pos + len <= old(self)@.src.len(),
        ensures
            raw_wf(final(self)@),
            final(self)@.src == old(self)@.src,
            final(self)@.pos == old(self)@.pos + len,
            final(self)@.line == old(self)@.line,
            final(self)@.col == old(self)@.col + len,
            t@ == (TokenV {
                inner: inner@,
                span: span_at(old(self)@.line, old(self)@.col, len as int),
            }),
    {
        let t = Token::new(inner, self.line, self.col, self.col + len);
        self.pos = self.pos + len;
        self.col = self.col + len;
        t
    }

    /// The end of a comment: the first newline at or after `from`.
    fn scan_comment_end(&self, from: usize) -> (q: usize)
        requires
            raw_wf(self@),
            from <= self@.src.len(),
        ensures
            q == scan(self@.src, from as int, comment_pred()),
            from <= q <= self@.src.len(),
    {
        proof {
            lemma_scan(self@.src, from as int, comment_pred());
        }
        let n = self.src.len();
        let mut i: usize = from;
        while i < n && self.src[i] != '\n'
            invariant
                from <= i <= n,
                n == self@.src.len(),
                scan(self@.src, from as int, comment_pred()) == scan(
                    self@.src,
                    i as int,
                    comment_pred(),
                ),
            decreases n - i,
        {
            i = i + 1;
        }
        i
    }

    /// The first non-hexadecimal-digit at or after `from`.
    fn scan_hex_end(&self, from: usize) -> (q: usize)
        requires
            raw_wf(self@),
            from <= self@.src.len(),
        ensures
            q == scan(self@.src, from as int, hex_pred()),
            from <= q <= self@.src.len(),
            forall|j: int| from <= j < q ==> is_hex_digit_char(self@.src[j]),
    {
        proof {
            lemma_scan(self@.src, from as int, hex_pred());
        }
        let n = self.src.len();
        let mut i: usize = from;
        while i < n && is_hex_digit(self.src[i])
            invariant
                from <= i <= n,
                n == self@.src.len(),
                scan(self@.src, from as int, hex_pred()) == scan(self@.src, i as int, hex_pred()),
            decreases n - i,
        {
            i = i + 1;
        }
        i
    }

    /// The first non-decimal-digit at or after `from`.
    fn scan_digit_end(&self, from: usize) -> (q: usize)
        requires
            raw_wf(self@),
            from <= self@.src.len(),
        ensures
            q == scan(self@.src, from as int, digit_pred()),
            from <= q <= self@.src.len(),
            forall|j: int| from <= j < q ==> is_hex_digit_char(self@.src[j]),
    {
        proof {
            lemma_scan(self@.src, from as int, digit_pred());
        }
        let n = self.src.len();
        let mut i: usize = from;
        while i < n && is_digit(self.src[i])
            invariant
                from <= i <= n,
                n == self@.src.len(),
                scan(self@.src, from as int, digit_pred()) == scan(
                    self@.src,
                    i as int,
                    digit_pred(),
                ),
            decreases n - i,
        {
            i = i + 1;
        }
        i
    }

    /// The first non-identifier-character at or after `from`.
    fn scan_ident_end(&self, from: usize) -> (q: usize)
        requires
            raw_wf(self@),
            from <= self@.src.len(),
        ensures
            q == scan(self@.src, from as int, ident_pred()),
            from <= q <= self@.src.len(),
    {
        proof {
            lemma_scan(self@.src, from as int, ident_pred());
        }
        let n = self.src.len();
        let mut i: usize = from;
        while i < n && is_ident(self.src[i])
            invariant
                from <= i <= n,
                n == self@.src.len(),
                scan(self@.src, from as int, ident_pred()) == scan(
                    self@.src,
                    i as int,
                    ident_pred(),
                ),
            decreases n - i,
        {
            i = i + 1;
        }
        i
    }

    /// The characters `src[a..b]`, as a string.
    fn text_range(&self, a: usize, b: usize) -> (t: String)
        requires
            a <= b <= self@.src.len(),
        ensures
            t@ == self@.src.subrange(a as int, b as int),
    {
        let mut t = String::new();
        let mut j: usize = a;
        while j < b
            invariant
                a <= j <= b,
                b <= self@.src.len(),
                t@ == self@.src.subrange(a as int, j as int),
            decreases b - j,
        {
            push_char(&mut t, self.src[j]);
            proof {
                assert(t@ =~= self@.src.subrange(a as int, j + 1));
            }
            j = j + 1;
        }
        t
    }

    /// Reads the digits `src[a..b]` in the given base; `None` when the
    /// value exceeds `bound`.
    fn parse_value(&self, a: usize, b: usize, base: u64, bound: u64) -> (r: Option<u64>)
        requires
            raw_wf(self@),
            a <= b <= self@.src.len(),
            base == 10 || base == 16,
            bound < 0x1_0000_0000,
            forall|j: int| a <= j < b ==> is_hex_digit_char(self@.src[j]),
        ensures
            ({
                let v = num_val(self@.src.subrange(a as int, b as int), base as int);
                match r {
                    Some(x) => x == v && v <= bound,
                    None => v > bound,
                }
            }),
    {
        let ghost t = self@.src.subrange(a as int, b as int);
        let mut acc: u64 = 0;
        let mut j: usize = a;
        proof {
            assert(t.take(0) =~= Seq::<char>::empty());
        }
        while j < b
            invariant
                a <= j <= b,
                b <= self@.src.len(),
                base == 10 || base == 16,
                bound < 0x1_0000_0000,
                t == self@.src.subrange(a as int, b as int),
                forall|i: int| a <= i < b ==> is_hex_digit_char(self@.src[i]),
                acc == num_val(t.take(j - a), base as int),
                acc <= bound,
            decreases b - j,
        {
            let d = digit_val_exec(self.src[j]);
            proof {
                assert(t[j - a] == self@.src[j as int]);
                lemma_num_val_step(t, j - a, base as int);
            }
            proof {
                assert(acc * base <= 0xffff_ffff * 16) by (nonlinear_arith)
                    requires
                        0 <= acc <= 0xffff_ffff && (base == 10 || base == 16),
                ;
            }
            let next = acc * base + d as u64;
            proof {
                assert(num_val(t.take(j - a + 1), base as int) == next);
            }
            if next > bound {
                proof {
                    lemma_num_val_monotone(t, j - a + 1, base as int);
                }
                return None;
            }
            acc = next;
            j = j + 1;
        }
        proof {
            assert(t.take((b - a) as int) =~= t);
        }
        Some(acc)
    }

    /// Reads the next token from the source, advancing past it:
    /// exactly [`lex_next`].
    pub fn next_from_buf(&mut self) -> (r: Option<LexResult>)
        requires
            raw_wf(old(self)@),
        ensures
            raw_wf(final(self)@),
            final(self)@.src == old(self)@.src,
            ({
                let o = lex_next(old(self)@.src, old(self)@.pos, old(self)@.line, old(self)@.col);
                &&& final(self)@.pos == o.pos
                &&& final(self)@.line == o.line
                &&& final(self)@.col == o.col
                &&& match (r, o.item) {
                    (None, None) => true,
                    (Some(Ok(t)), Some(Ok(tv))) => t@ == tv,
                    (Some(Err(e)), Some(Err(ev))) => e == ev,
                    _ => false,
                }
            }),
    {
        self.gobble_whitespace();
        proof {
            lemma_scan(self@.src, old(self)@.pos, space_pred());
            lemma_adv_pos_bounds(
                self@.src,
                old(self)@.pos,
                self@.pos,
                old(self)@.line,
                old(self)@.col,
            );
        }
        let n = self.src.len();
        if self.pos >= n {
            return None;
        }
        let ch = self.src[self.pos];
        if ch == '(' {
            return Some(Ok(self.take_token(TokenInner::LeftParen, 1)));
        }
        if ch == ')' {
            return Some(Ok(self.take_token(TokenInner::RightParen, 1)));
        }
        if ch == ',' {
            return Some(Ok(self.take_token(TokenInner::Comma, 1)));
        }
        if ch == ':' {
            return Some(Ok(self.take_token(TokenInner::Colon, 1)));
        }
        if ch == '-' {
            return Some(Ok(self.take_token(TokenInner::Minus, 1)));
        }
        if ch == '#' {
            let q = self.scan_comment_end(self.pos + 1);
            let text = self.text_range(self.pos + 1, q);
            let len = q - self.pos;
            return Some(Ok(self.take_token(TokenInner::HashComment(text), len)));
        }
        if ch == '/' && self.pos + 1 < n && self.src[self.pos + 1] == '/' {
            let q = self.scan_comment_end(self.pos + 2);
            let text = self.text_range(self.pos + 2, q);
            let len = q - self.pos;
            return Some(Ok(self.take_token(TokenInner::SlashComment(text), len)));
        }
        if ch == '0' && self.pos + 1 < n && self.src[self.pos + 1] == 'x' {
            let q = self.scan_hex_end(self.pos + 2);
            if q == self.pos + 2 {
                return Some(
                    Err(
                        LexError {
                            line: self.line,
                            start: self.col,
                            end: self.col + 2,
                            kind: LexErrorKind::HexPrefixNoDigits,
                        },
                    ),
                );
            }
            match self.parse_value(self.pos + 2, q, 16, 0xffff_ffff) {
                Some(v) => {
                    let val = crate::executor::memory::to_signed_exec(v as u32);
                    let len = q - self.pos;
                    return Some(Ok(self.take_token(TokenInner::Constant(val), len)));
                },
                None => {
                    return Some(
                        Err(
                            LexError {
                                line: self.line,
                                start: self.col,
                                end: self.col + (q - self.pos),
                                kind: LexErrorKind::NumberOverflow,
                            },
                        ),
                    );
                },
            }
        }
        if is_digit(ch) {
            let q = self.scan_digit_end(self.pos);
            match self.parse_value(self.pos, q, 10, 0x7fff_ffff) {
                Some(v) => {
                    let len = q - self.pos;
                    return Some(Ok(self.take_token(TokenInner::Constant(v as i32), len)));
                },
                None => {
                    return Some(
                        Err(
                            LexError {
                                line: self.line,
                                start: self.col,
                                end: self.col + (q - self.pos),
                                kind: LexErrorKind::NumberOverflow,
                            },
                        ),
                    );
                },
            }
        }
        if is_ident(ch) {
            let q = self.scan_ident_end(self.pos);
            let text = self.text_range(self.pos, q);
            let len = q - self.pos;
            return Some(Ok(self.take_token(TokenInner::Ident(text), len)));
        }
        Some(
            Err(
                LexError {
                    line: self.line,
                    start: self.col,
                    end: self.col + 1,
                    kind: LexErrorKind::UnknownChar,
                },
            ),
        )
    }
}

/// The raw-lexer state after reading one token at `r`.
pub open spec fn raw_step(r: RawLexV) -> RawLexV {
    let o = lex_next(r.src, r.pos, r.line, r.col);
    RawLexV { src: r.src, pos: o.pos, line: o.line, col: o.col }
}

/// The item the raw lexer produces at `r`.
pub open spec fn raw_item(r: RawLexV) -> Option<Result<TokenV, LexError>> {
    lex_next(r.src, r.pos, r.line, r.col).item
}

/// Reading a token never moves backwards, and a successful token moves
/// strictly forward.
pub proof fn lemma_lex_next_pos(r: RawLexV)
    requires
        raw_wf(r),
    ensures
        r.pos <= raw_step(r).pos <= r.src.len(),
        raw_item(r) matches Some(Ok(_)) ==> raw_step(r).pos > r.pos,
{
    lemma_scan(r.src, r.pos, space_pred());
    let p = scan(r.src, r.pos, space_pred());
    if p < r.src.len() {
        lemma_scan(r.src, p + 1, comment_pred());
        lemma_scan(r.src, p, digit_pred());
        lemma_scan(r.src, p, ident_pred());
        if p + 2 <= r.src.len() {
            lemma_scan(r.src, p + 2, comment_pred());
            lemma_scan(r.src, p + 2, hex_pred());
        }
    }
}

/// Mathematical view of a [`Lexer`].
#[verifier::ext_equal]
pub ghost struct LexerV {
    pub raw: RawLexV,
    pub errored: bool,
    pub peek: Option<Result<TokenV, LexError>>,
}

/// The view of one lexing result.
pub open spec fn res_view(r: Result<Token, LexError>) -> Result<TokenV, LexError> {
    match r {
        Ok(t) => Ok(t@),
        Err(e) => Err(e),
    }
}

/// The view of an optional lexing result.
pub open spec fn opt_res_view(r: Option<Result<Token, LexError>>) -> Option<
    Result<TokenV, LexError>,
> {
    match r {
        None => None,
        Some(x) => Some(res_view(x)),
    }
}

/// How much lexing work is left: used to show that parsing makes
/// progress.
pub open spec fn lex_measure(l: LexerV) -> int {
    2 * (l.raw.src.len() - l.raw.pos) + (if l.peek matches Some(Ok(_)) {
        1int
    } else {
        0int
    })
}

/// A peekable lexer over tokens. After it returns an error once, it
/// returns `None`.
#[derive(Debug)]
pub struct Lexer {
    inner: RawLexer,
    errored: bool,
    peek: Option<LexResult>,
}

impl View for Lexer {
    type V = LexerV;

    closed spec fn view(&self) -> LexerV {
        LexerV { raw: self.inner@, errored: self.errored, peek: opt_res_view(self.peek) }
    }
}

/// The lexer after its lookahead is consumed and refilled.
pub open spec fn lexer_advanced(l: LexerV) -> LexerV {
    LexerV { raw: raw_step(l.raw), errored: l.errored, peek: raw_item(l.raw) }
}

impl Lexer {
    /// The lexer invariant: the underlying raw lexer is well-formed.
    pub open spec fn wf(self) -> bool {
        raw_wf(self@.raw)
    }

    pub fn new(source: &str) -> (r: Lexer)
        ensures
            r.wf(),
            r@.errored == false,
            source@.len() < usize::MAX ==> r@ == (lexer_advanced(
                LexerV {
                    raw: RawLexV { src: source@, pos: 0, line: 1, col: 1 },
                    errored: false,
                    peek: None,
                },
            )),
    {
        let mut inner = RawLexer::new(source);
        let peek = inner.next_from_buf();
        Lexer { inner, errored: false, peek }
    }

    /// The next token, without advancing.
    pub fn peek(&self) -> (r: Option<&LexResult>)
        ensures
            match r {
                None => self@.peek is None,
                Some(lr) => self@.peek == Some(res_view(*lr)),
            },
    {
        self.peek.as_ref()
    }

    /// Whether only whitespace is left in the source (the lookahead may
    /// still hold one token).
    pub fn finished(&self) -> (r: bool)
        requires
            self.wf(),
        ensures
            r == (scan(self@.raw.src, self@.raw.pos, space_pred()) == self@.raw.src.len()),
    {
        self.inner.finished()
    }

    /// The next token, advancing past it. An error is returned once;
    /// after that, `None`.
    pub fn next(&mut self) -> (r: Option<LexResult>)
        requires
            old(self).wf(),
        ensures
            final(self).wf(),
            final(self)@.raw.src == old(self)@.raw.src,
            match old(self)@.peek {
                Some(Err(e)) => {
                    if old(self)@.errored {
                        r is None && final(self)@ == old(self)@
                    } else {
                        &&& opt_res_view(r) == Some(Err::<TokenV, LexError>(e))
                        &&& final(self)@ == (LexerV {
                            errored: true,
                            ..lexer_advanced(old(self)@)
                        })
                    }
                },
                _ => {
                    &&& opt_res_view(r) == old(self)@.peek
                    &&& final(self)@ == lexer_advanced(old(self)@)
                },
            },
    {
        let peek_is_err = match &self.peek {
            Some(Err(_)) => true,
            _ => false,
        };
        if peek_is_err {
            if !self.errored {
                self.errored = true;
                let refreshed = self.inner.next_from_buf();
                let out = self.peek.take();
                self.peek = refreshed;
                out
            } else {
                None
            }
        } else {
            let refreshed = self.inner.next_from_buf();
            let out = self.peek.take();
            self.peek = refreshed;
            out
        }
    }
}

/// Strips comments: on every line, everything from `#` on is dropped,
/// and the lines are joined without separators.
pub open spec fn decomment_rec(s: Seq<char>, i: int, in_comment: bool) -> Seq<char>
    decreases s.len() - i,
{
    if i < 0 || i >= s.len() {
        Seq::empty()
    } else if s[i] == '\n' {
        decomment_rec(s, i + 1, false)
    } else if in_comment {
        decomment_rec(s, i + 1, true)
    } else if s[i] == '#' {
        decomment_rec(s, i + 1, true)
    } else {
        seq![s[i]] + decomment_rec(s, i + 1, false)
    }
}

/// Removes `#` comments from a source text; newlines are dropped too.
pub fn decomment(source: &str) -> (r: String)
    ensures
        r@ == decomment_rec(source@, 0, false),
{
    let src = chars_of(source);
    let n = src.len();
    let mut out = String::new();
    let mut in_comment = false;
    let mut i: usize = 0;
    while i < n
        invariant
            i <= n,
            n == src@.len(),
            src@ == source@,
            out@ + decomment_rec(source@, i as int, in_comment) == decomment_rec(
                source@,
                0,
                false,
            ),
        decreases n - i,
    {
        let c = src[i];
        if c == '\n' {
            in_comment = false;
        } else if in_comment {
        } else if c == '#' {
            in_comment = true;
        } else {
            push_char(&mut out, c);
            proof {
                assert(out@ + decomment_rec(source@, i + 1, false) =~= decomment_rec(
                    source@,
                    0,
                    false,
                ));
            }
        }
        i = i + 1;
    }
    proof {
        assert(out@ =~= decomment_rec(source@, 0, false));
    }
    out
}


/// Why a demanded token could not be produced.
#[derive(Debug, PartialEq, Eq)]
pub enum TokenError {
    /// The next token is not of the demanded kind.
    Unexpected { found: Token },
    /// Lexing failed; the failure is not consumed, so asking again
    /// reports it again.
    LexFailed { error: LexError },
    /// The input ended before the demanded token.
    OutOfInput,
}

// Functions demanding a token of one kind from the lexer: if the next
// token is of that kind, the stream is advanced and the token returned;
// otherwise the stream is left alone.
impl Lexer {
    /// If the next token is `Comma`, consumes and returns it; otherwise
    /// the stream is not advanced.
    pub fn comma(&mut self) -> (r: Result<Token, TokenError>)
        requires
            old(self).wf(),
        ensures
            final(self).wf(),
            final(self)@.raw.src == old(self)@.raw.src,
            lex_measure(final(self)@) <= lex_measure(old(self)@),
            match old(self)@.peek {
                Some(Ok(t)) => {
                    if t.inner is Comma {
                        &&& r matches Ok(tok) && tok@ == t
                        &&& final(self)@ == lexer_advanced(old(self)@)
                        &&& lex_measure(final(self)@) < lex_measure(old(self)@)
                    } else {
                        &&& r matches Err(TokenError::Unexpected { found }) && found@ == t
                        &&& final(self)@ == old(self)@
                    }
                },
                Some(Err(e)) => r == Err::<Token, TokenError>(TokenError::LexFailed { error: e })
                    && final(self)@ == old(self)@,
                None => r == Err::<Token, TokenError>(TokenError::OutOfInput) && final(self)@
                    == old(self)@,
            },
    {
        proof {
            lemma_lex_next_pos(old(self)@.raw);
        }
        let matched = match &self.peek {
            Some(Ok(t)) => matches!(t.inner, TokenInner::Comma),
            _ => false,
        };
        if matched {
            match self.next() {
                Some(Ok(t)) => Ok(t),
                _ => vstd::pervasive::unreached(),
            }
        } else {
            match &self.peek {
                Some(Ok(t)) => Err(TokenError::Unexpected { found: t.clone() }),
                Some(Err(e)) => Err(TokenError::LexFailed { error: *e }),
                None => Err(TokenError::OutOfInput),
            }
        }
    }

    /// If the next token is `Colon`, consumes and returns it; otherwise
    /// the stream is not advanced.
    pub fn colon(&mut self) -> (r: Result<Token, TokenError>)
        requires
            old(self).wf(),
        ensures
            final(self).wf(),
            final(self)@.raw.src == old(self)@.raw.src,
            lex_measure(final(self)@) <= lex_measure(old(self)@),
            match old(self)@.peek {
                Some(Ok(t)) => {
                    if t.inner is Colon {
                        &&& r matches Ok(tok) && tok@ == t
                        &&& final(self)@ == lexer_advanced(old(self)@)
                        &&& lex_measure(final(self)@) < lex_measure(old(self)@)
                    } else {
                        &&& r matches Err(TokenError::Unexpected { found }) && found@ == t
                        &&& final(self)@ == old(self)@
                    }
                },
                Some(Err(e)) => r == Err::<Token, TokenError>(TokenError::LexFailed { error: e })
                    && final(self)@ == old(self)@,
                None => r == Err::<Token, TokenError>(TokenError::OutOfInput) && final(self)@
                    == old(self)@,
            },
    {
        proof {
            lemma_lex_next_pos(old(self)@.raw);
        }
        let matched = match &self.peek {
            Some(Ok(t)) => matches!(t.inner, TokenInner::Colon),
            _ => false,
        };
        if matched {
            match self.next() {
                Some(Ok(t)) => Ok(t),
                _ => vstd::pervasive::unreached(),
            }
        } else {
            match &self.peek {
                Some(Ok(t)) => Err(TokenError::Unexpected { found: t.clone() }),
                Some(Err(e)) => Err(TokenError::LexFailed { error: *e }),
                None => Err(TokenError::OutOfInput),
            }
        }
    }

    /// If the next token is `RightParen`, consumes and returns it; otherwise
    /// the stream is not advanced.
    pub fn right_paren(&mut self) -> (r: Result<Token, TokenError>)
        requires
            old(self).wf(),
        ensures
            final(self).wf(),
            final(self)@.raw.src == old(self)@.raw.src,
            lex_measure(final(self)@) <= lex_measure(old(self)@),
            match old(self)@.peek {
                Some(Ok(t)) => {
                    if t.inner is RightParen {
                        &&& r matches Ok(tok) && tok@ == t
                        &&& final(self)@ == lexer_advanced(old(self)@)
                        &&& lex_measure(final(self)@) < lex_measure(old(self)@)
                    } else {
                        &&& r matches Err(TokenError::Unexpected { found }) && found@ == t
                        &&& final(self)@ == old(self)@
                    }
                },
                Some(Err(e)) => r == Err::<Token, TokenError>(TokenError::LexFailed { error: e })
                    && final(self)@ == old(self)@,
                None => r == Err::<Token, TokenError>(TokenError::OutOfInput) && final(self)@
                    == old(self)@,
            },
    {
        proof {
            lemma_lex_next_pos(old(self)@.raw);
        }
        let matched = match &self.peek {
            Some(Ok(t)) => matches!(t.inner, TokenInner::RightParen),
            _ => false,
        };
        if matched {
            match self.next() {
                Some(Ok(t)) => Ok(t),
                _ => vstd::pervasive::unreached(),
            }
        } else {
            match &self.peek {
                Some(Ok(t)) => Err(TokenError::Unexpected { found: t.clone() }),
                Some(Err(e)) => Err(TokenError::LexFailed { error: *e }),
                None => Err(TokenError::OutOfInput),
            }
        }
    }

    /// If the next token is `LeftParen`, consumes and returns it; otherwise
    /// the stream is not advanced.
    pub fn left_paren(&mut self) -> (r: Result<Token, TokenError>)
        requires
            old(self).wf(),
        ensures
            final(self).wf(),
            final(self)@.raw.src == old(self)@.raw.src,
            lex_measure(final(self)@) <= lex_measure(old(self)@),
            match old(self)@.peek {
                Some(Ok(t)) => {
                    if t.inner is LeftParen {
                        &&& r matches Ok(tok) && tok@ == t
                        &&& final(self)@ == lexer_advanced(old(self)@)
                        &&& lex_measure(final(self)@) < lex_measure(old(self)@)
                    } else {
                        &&& r matches Err(TokenError::Unexpected { found }) && found@ == t
                        &&& final(self)@ == old(self)@
                    }
                },
                Some(Err(e)) => r == Err::<Token, TokenError>(TokenError::LexFailed { error: e })
                    && final(self)@ == old(self)@,
                None => r == Err::<Token, TokenError>(TokenError::OutOfInput) && final(self)@
                    == old(self)@,
            },
    {
        proof {
            lemma_lex_next_pos(old(self)@.raw);
        }
        let matched = match &self.peek {
            Some(Ok(t)) => matches!(t.inner, TokenInner::LeftParen),
            _ => false,
        };
        if matched {
            match self.next() {
                Some(Ok(t)) => Ok(t),
                _ => vstd::pervasive::unreached(),
            }
        } else {
            match &self.peek {
                Some(Ok(t)) => Err(TokenError::Unexpected { found: t.clone() }),
                Some(Err(e)) => Err(TokenError::LexFailed { error: *e }),
                None => Err(TokenError::OutOfInput),
            }
        }
    }

    /// If the next token is `Minus`, consumes and returns it; otherwise
    /// the stream is not advanced.
    pub fn minus(&mut self) -> (r: Result<Token, TokenError>)
        requires
            old(self).wf(),
        ensures
            final(self).wf(),
            final(self)@.raw.src == old(self)@.raw.src,
            lex_measure(final(self)@) <= lex_measure(old(self)@),
            match old(self)@.peek {
                Some(Ok(t)) => {
                    if t.inner is Minus {
                        &&& r matches Ok(tok) && tok@ == t
                        &&& final(self)@ == lexer_advanced(old(self)@)
                        &&& lex_measure(final(self)@) < lex_measure(old(self)@)
                    } else {
                        &&& r matches Err(TokenError::Unexpected { found }) && found@ == t
                        &&& final(self)@ == old(self)@
                    }
                },
                Some(Err(e)) => r == Err::<Token, TokenError>(TokenError::LexFailed { error: e })
                    && final(self)@ == old(self)@,
                None => r == Err::<Token, TokenError>(TokenError::OutOfInput) && final(self)@
                    == old(self)@,
            },
    {
        proof {
            lemma_lex_next_pos(old(self)@.raw);
        }
        let matched = match &self.peek {
            Some(Ok(t)) => matches!(t.inner, TokenInner::Minus),
            _ => false,
        };
        if matched {
            match self.next() {
                Some(Ok(t)) => Ok(t),
                _ => vstd::pervasive::unreached(),
            }
        } else {
            match &self.peek {
                Some(Ok(t)) => Err(TokenError::Unexpected { found: t.clone() }),
                Some(Err(e)) => Err(TokenError::LexFailed { error: *e }),
                None => Err(TokenError::OutOfInput),
            }
        }
    }

    /// If the next token is `Ident`, consumes and returns it; otherwise
    /// the stream is not advanced.
    pub fn ident(&mut self) -> (r: Result<Token, TokenError>)
        requires
            old(self).wf(),
        ensures
            final(self).wf(),
            final(self)@.raw.src == old(self)@.raw.src,
            lex_measure(final(self)@) <= lex_measure(old(self)@),
            match old(self)@.peek {
                Some(Ok(t)) => {
                    if t.inner is Ident {
                        &&& r matches Ok(tok) && tok@ == t
                        &&& final(self)@ == lexer_advanced(old(self)@)
                        &&& lex_measure(final(self)@) < lex_measure(old(self)@)
                    } else {
                        &&& r matches Err(TokenError::Unexpected { found }) && found@ == t
                        &&& final(self)@ == old(self)@
                    }
                },
                Some(Err(e)) => r == Err::<Token, TokenError>(TokenError::LexFailed { error: e })
                    && final(self)@ == old(self)@,
                None => r == Err::<Token, TokenError>(TokenError::OutOfInput) && final(self)@
                    == old(self)@,
            },
    {
        proof {
            lemma_lex_next_pos(old(self)@.raw);
        }
        let matched = match &self.peek {
            Some(Ok(t)) => matches!(t.inner, TokenInner::Ident(_)),
            _ => false,
        };
        if matched {
            match self.next() {
                Some(Ok(t)) => Ok(t),
                _ => vstd::pervasive::unreached(),
            }
        } else {
            match &self.peek {
                Some(Ok(t)) => Err(TokenError::Unexpected { found: t.clone() }),
                Some(Err(e)) => Err(TokenError::LexFailed { error: *e }),
                None => Err(TokenError::OutOfInput),
            }
        }
    }

    /// If the next token is `Constant`, consumes and returns it; otherwise
    /// the stream is not advanced.
    pub fn constant(&mut self) -> (r: Result<Token, TokenError>)
        requires
            old(self).wf(),
        ensures
            final(self).wf(),
            final(self)@.raw.src == old(self)@.raw.src,
            lex_measure(final(self)@) <= lex_measure(old(self)@),
            match old(self)@.peek {
                Some(Ok(t)) => {
                    if t.inner is Constant {
                        &&& r matches Ok(tok) && tok@ == t
                        &&& final(self)@ == lexer_advanced(old(self)@)
                        &&& lex_measure(final(self)@) < lex_measure(old(self)@)
                    } else {
                        &&& r matches Err(TokenError::Unexpected { found }) && found@ == t
                        &&& final(self)@ == old(self)@
                    }
                },
                Some(Err(e)) => r == Err::<Token, TokenError>(TokenError::LexFailed { error: e })
                    && final(self)@ == old(self)@,
                None => r == Err::<Token, TokenError>(TokenError::OutOfInput) && final(self)@
                    == old(self)@,
            },
    {
        proof {
            lemma_lex_next_pos(old(self)@.raw);
        }
        let matched = match &self.peek {
            Some(Ok(t)) => matches!(t.inner, TokenInner::Constant(_)),
            _ => false,
        };
        if matched {
            match self.next() {
                Some(Ok(t)) => Ok(t),
                _ => vstd::pervasive::unreached(),
            }
        } else {
            match &self.peek {
                Some(Ok(t)) => Err(TokenError::Unexpected { found: t.clone() }),
                Some(Err(e)) => Err(TokenError::LexFailed { error: *e }),
                None => Err(TokenError::OutOfInput),
            }
        }
    }

    /// If the next token is `HashComment`, consumes and returns it; otherwise
    /// the stream is not advanced.
    pub fn hash_comment(&mut self) -> (r: Result<Token, TokenError>)
        requires
            old(self).wf(),
        ensures
            final(self).wf(),
            final(self)@.raw.src == old(self)@.raw.src,
            lex_measure(final(self)@) <= lex_measure(old(self)@),
            match old(self)@.peek {
                Some(Ok(t)) => {
                    if t.inner is HashComment {
                        &&& r matches Ok(tok) && tok@ == t
                        &&& final(self)@ == lexer_advanced(old(self)@)
                        &&& lex_measure(final(self)@) < lex_measure(old(self)@)
                    } else {
                        &&& r matches Err(TokenError::Unexpected { found }) && found@ == t
                        &&& final(self)@ == old(self)@
                    }
                },
                Some(Err(e)) => r == Err::<Token, TokenError>(TokenError::LexFailed { error: e })
                    && final(self)@ == old(self)@,
                None => r == Err::<Token, TokenError>(TokenError::OutOfInput) && final(self)@
                    == old(self)@,
            },
    {
        proof {
            lemma_lex_next_pos(old(self)@.raw);
        }
        let matched = match &self.peek {
            Some(Ok(t)) => matches!(t.inner, TokenInner::HashComment(_)),
            _ => false,
        };
        if matched {
            match self.next() {
                Some(Ok(t)) => Ok(t),
                _ => vstd::pervasive::unreached(),
            }
        } else {
            match &self.peek {
                Some(Ok(t)) => Err(TokenError::Unexpected { found: t.clone() }),
                Some(Err(e)) => Err(TokenError::LexFailed { error: *e }),
                None => Err(TokenError::OutOfInput),
            }
        }
    }

    /// If the next token is `SlashComment`, consumes and returns it; otherwise
    /// the stream is not advanced.
    pub fn slash_comment(&mut self) -> (r: Result<Token, TokenError>)
        requires
            old(self).wf(),
        ensures
            final(self).wf(),
            final(self)@.raw.src == old(self)@.raw.src,
            lex_measure(final(self)@) <= lex_measure(old(self)@),
            match old(self)@.peek {
                Some(Ok(t)) => {
                    if t.inner is SlashComment {
                        &&& r matches Ok(tok) && tok@ == t
                        &&& final(self)@ == lexer_advanced(old(self)@)
                        &&& lex_measure(final(self)@) < lex_measure(old(self)@)
                    } else {
                        &&& r matches Err(TokenError::Unexpected { found }) && found@ == t
                        &&& final(self)@ == old(self)@
                    }
                },
                Some(Err(e)) => r == Err::<Token, TokenError>(TokenError::LexFailed { error: e })
                    && final(self)@ == old(self)@,
                None => r == Err::<Token, TokenError>(TokenError::OutOfInput) && final(self)@
                    == old(self)@,
            },
    {
        proof {
            lemma_lex_next_pos(old(self)@.raw);
        }
        let matched = match &self.peek {
            Some(Ok(t)) => matches!(t.inner, TokenInner::SlashComment(_)),
            _ => false,
        };
        if matched {
            match self.next() {
                Some(Ok(t)) => Ok(t),
                _ => vstd::pervasive::unreached(),
            }
        } else {
            match &self.peek {
                Some(Ok(t)) => Err(TokenError::Unexpected { found: t.clone() }),
                Some(Err(e)) => Err(TokenError::LexFailed { error: *e }),
                None => Err(TokenError::OutOfInput),
            }
        }
    }
}

} // verus!
