use vstd::prelude::*;
use vstd::utf8::*;

use crate::error::LexError;
use crate::text::{concat, debug_form, debug_text, decimal, decimal_text, push_char};

verus! {

broadcast use vstd::utf8::encode_utf8_valid_utf8, vstd::utf8::encode_utf8_decode_utf8;

/// The kinds of token the scanner produces.
#[derive(Debug, Clone, Copy, PartialEq, Eq, Hash, Structural)]
pub enum TokenType {
    // Single-character tokens.
    LeftParen,
    RightParen,
    LeftBrace,
    RightBrace,
    LeftBracket,
    RightBracket,
    Minus,
    Plus,
    Semicolon,
    Slash,
    Star,
    QuestionMark,
    Colon,
    // One or two character tokens.
    Bang,
    BangEqual,
    Equal,
    EqualEqual,
    Greater,
    GreaterEqual,
    Less,
    LessEqual,
    // Comments.
    LineComment,
    BlockComment,
    // Literals.
    Identifier,
    String,
    Number,
    // Keywords.
    And,
    Class,
    Else,
    False,
    Fun,
    For,
    If,
    Nil,
    Or,
    Print,
    Return,
    Super,
    This,
    True,
    Var,
    While,
    Eof,
}

/// What a token is: its kind, its text and the line it was found on.
pub struct TokenView {
    pub token_type: TokenType,
    pub lexeme: Seq<char>,
    pub line: nat,
}

/// A token of Lox source text.
#[derive(Debug, Clone, PartialEq, Eq, Hash)]
pub struct Token {
    token_type: TokenType,
    lexeme: String,
    line: usize,
}

impl View for Token {
    type V = TokenView;

    closed spec fn view(&self) -> TokenView {
        TokenView { token_type: self.token_type, lexeme: self.lexeme@, line: self.line as nat }
    }
}

impl Token {
    pub fn new(token_type: TokenType, lexeme: String, line: usize) -> (t: Self)
        ensures
            t@ == (TokenView { token_type, lexeme: lexeme@, line: line as nat }),
    {
        Token { token_type, lexeme, line }
    }

    pub fn lexeme(&self) -> (r: &str)
        ensures
            r@ == self@.lexeme,
    {
        self.lexeme.as_str()
    }

    pub fn line(&self) -> (r: usize)
        ensures
            r == self@.line,
    {
        self.line
    }

    pub fn token_type(&self) -> (r: TokenType)
        ensures
            r == self@.token_type,
    {
        self.token_type
    }

    /// A copy of this token.
    pub(crate) fn duplicate(&self) -> (r: Token)
        ensures
            r@ == self@,
    {
        Token { token_type: self.token_type, lexeme: self.lexeme.clone(), line: self.line }
    }
}

/// The views of a sequence of tokens.
pub open spec fn token_views(tokens: Seq<Token>) -> Seq<TokenView> {
    tokens.map_values(|t: Token| t@)
}

/// Copies a list of tokens.
pub(crate) fn copy_tokens(tokens: &Vec<Token>) -> (r: Vec<Token>)
    ensures
        token_views(r@) == token_views(tokens@),
{
    let mut r: Vec<Token> = Vec::new();
    let mut i: usize = 0;
    while i < tokens.len()
        invariant
            i <= tokens.len(),
            token_views(r@) == token_views(tokens@).take(i as int),
        decreases tokens.len() - i,
    {
        let t = tokens[i].duplicate();
        let ghost prev = r@;
        r.push(t);
        assert(token_views(r@) =~= token_views(prev).push(t@));
        i = i + 1;
        assert(token_views(r@) =~= token_views(tokens@).take(i as int));
    }
    assert(token_views(tokens@).take(i as int) =~= token_views(tokens@));
    r
}

// ---------------------------------------------------------------------------
// Character classes
// ---------------------------------------------------------------------------
/// Whether `char::is_numeric` holds of `c` (Unicode numeric general categories).
pub uninterp spec fn numeric_char(c: char) -> bool;

/// Whether `char::is_alphanumeric` holds of `c` (Unicode alphabetic or numeric).
pub uninterp spec fn alphanumeric_char(c: char) -> bool;

/// An ASCII digit.
pub open spec fn ascii_digit(c: char) -> bool {
    '0' <= c && c <= '9'
}

/// An ASCII letter.
pub open spec fn ascii_letter(c: char) -> bool {
    ('a' <= c && c <= 'z') || ('A' <= c && c <= 'Z')
}

/// Whether `char::is_numeric` holds of `c`: on ASCII, exactly the digits
/// `0`–`9`; beyond ASCII, `numeric_char(c)`.
pub open spec fn numeric(c: char) -> bool {
    if c <= '\u{7f}' {
        ascii_digit(c)
    } else {
        numeric_char(c)
    }
}

/// Whether `char::is_alphanumeric` holds of `c`: on ASCII, exactly the
/// letters and digits; beyond ASCII, `alphanumeric_char(c)`.
pub open spec fn alphanumeric(c: char) -> bool {
    if c <= '\u{7f}' {
        ascii_letter(c) || ascii_digit(c)
    } else {
        alphanumeric_char(c)
    }
}

/// Calls `char::is_numeric`; its result is named `numeric_char(c)`. Of an
/// ASCII character the documentation gives it: numeric exactly when it is
/// a digit `0`–`9`; so the result is `numeric(c)`.
#[verifier::external_body]
fn is_numeric(c: char) -> (r: bool)
    ensures
        r == numeric_char(c),
        r == numeric(c),
{
    c.is_numeric()
}

/// Calls `char::is_alphanumeric`; its result is named `alphanumeric_char(c)`.
/// Of an ASCII character the documentation gives it: alphanumeric exactly
/// when it is a letter or a digit; so the result is `alphanumeric(c)`.
#[verifier::external_body]
fn is_alphanumeric(c: char) -> (r: bool)
    ensures
        r == alphanumeric_char(c),
        r == alphanumeric(c),
{
    c.is_alphanumeric()
}

/// Unicode `White_Space`, the property that `char::is_whitespace` and
/// `str::split_whitespace` use.
pub open spec fn white_space(c: char) -> bool {
    ||| ('\u{9}' <= c && c <= '\u{d}')
    ||| c == ' '
    ||| c == '\u{85}'
    ||| c == '\u{a0}'
    ||| c == '\u{1680}'
    ||| ('\u{2000}' <= c && c <= '\u{200a}')
    ||| c == '\u{2028}'
    ||| c == '\u{2029}'
    ||| c == '\u{202f}'
    ||| c == '\u{205f}'
    ||| c == '\u{3000}'
}

pub fn is_white_space(c: char) -> (r: bool)
    ensures
        r == white_space(c),
{
    ('\u{9}' <= c && c <= '\u{d}') || c == ' ' || c == '\u{85}' || c == '\u{a0}' || c
        == '\u{1680}' || ('\u{2000}' <= c && c <= '\u{200a}') || c == '\u{2028}' || c
        == '\u{2029}' || c == '\u{202f}' || c == '\u{205f}' || c == '\u{3000}'
}

// ---------------------------------------------------------------------------
// Source text
// ---------------------------------------------------------------------------
/// Length in bytes of the UTF-8 encoding of `src`; the scanner stops when its
/// cursor, which counts characters, reaches this number.
pub open spec fn byte_len(src: Seq<char>) -> nat {
    encode_utf8(src).len()
}

/// The character at position `i`, if there is one.
pub open spec fn char_at(src: Seq<char>, i: int) -> Option<char> {
    if 0 <= i < src.len() {
        Some(src[i])
    } else {
        None
    }
}

pub open spec fn at_end(src: Seq<char>, i: int) -> bool {
    i >= byte_len(src)
}

/// Whether the source text can be cut at byte offsets `a` and `b`.
pub open spec fn can_slice(src: Seq<char>, a: int, b: int) -> bool {
    a <= b && is_char_boundary(encode_utf8(src), a) && is_char_boundary(encode_utf8(src), b)
}

/// The text between byte offsets `a` and `b` of the source.
pub open spec fn slice_of(src: Seq<char>, a: int, b: int) -> Seq<char> {
    decode_utf8(encode_utf8(src).subrange(a, b))
}

/// Each character takes at least one byte.
pub proof fn lemma_chars_within_bytes(src: Seq<char>)
    ensures
        src.len() <= byte_len(src),
    decreases src.len(),
{
    if src.len() > 0 {
        lemma_chars_within_bytes(src.drop_first());
    }
}

// ---------------------------------------------------------------------------
// The scanner as a state machine
// ---------------------------------------------------------------------------
/// The scanner's position: the cursor, the start of the current token, the
/// current line and the tokens found so far.
pub struct LexState {
    pub cur: nat,
    pub start: nat,
    pub line: nat,
    pub tokens: Seq<TokenView>,
}

/// The outcome of one scanning step, or of a whole scan: it went on (or, for a
/// whole scan, finished) in the given state, it reported an error, or the
/// input is one on which scanning is undefined (it would index past the text
/// or cut a character in two).
pub enum LexStep {
    Continue(LexState),
    Failed(LexError, LexState),
    Abort,
}

pub open spec fn with_cur(st: LexState, cur: nat) -> LexState {
    LexState { cur, ..st }
}

pub open spec fn push_token(st: LexState, token_type: TokenType, lexeme: Seq<char>) -> LexState {
    LexState {
        tokens: st.tokens.push(TokenView { token_type, lexeme, line: st.line }),
        ..st
    }
}

/// Adds a token whose text runs from the start of the token to the cursor.
pub open spec fn add_token_step(src: Seq<char>, st: LexState, token_type: TokenType) -> LexStep {
    if can_slice(src, st.start as int, st.cur as int) {
        LexStep::Continue(
            push_token(st, token_type, slice_of(src, st.start as int, st.cur as int)),
        )
    } else {
        LexStep::Abort
    }
}

/// Position of the first `stop` character at or after `i`, or the end of the text.
pub open spec fn skip_until(src: Seq<char>, i: nat, stop: char) -> nat
    decreases src.len() - i,
{
    if i < src.len() && src[i as int] != stop {
        skip_until(src, i + 1, stop)
    } else {
        i
    }
}

/// End of the run of numeric characters other than `'0'` from `i`; `None` when
/// the run reaches the end of the text, where the scanner looks past the end.
pub open spec fn nonzero_digit_run(src: Seq<char>, i: nat) -> Option<nat>
    decreases src.len() - i,
{
    if i >= src.len() {
        None
    } else if numeric(src[i as int]) && src[i as int] != '0' {
        nonzero_digit_run(src, i + 1)
    } else {
        Some(i)
    }
}

/// End of the run of numeric characters from `i`; `None` when it reaches the end.
pub open spec fn numeric_run(src: Seq<char>, i: nat) -> Option<nat>
    decreases src.len() - i,
{
    if i >= src.len() {
        None
    } else if numeric(src[i as int]) {
        numeric_run(src, i + 1)
    } else {
        Some(i)
    }
}

/// End of the run of alphanumeric characters from `i`; `None` when it reaches the end.
pub open spec fn alphanumeric_run(src: Seq<char>, i: nat) -> Option<nat>
    decreases src.len() - i,
{
    if i >= src.len() {
        None
    } else if alphanumeric(src[i as int]) {
        alphanumeric_run(src, i + 1)
    } else {
        Some(i)
    }
}

/// Position of the closing quote of a string from `i`, or the position where
/// the cursor reaches the end; `None` when the cursor passes the last character
/// before it reaches the end.
pub open spec fn string_close(src: Seq<char>, i: nat) -> Option<nat>
    decreases src.len() - i,
{
    if !at_end(src, i as int) && char_at(src, i as int) != Some('"') {
        if i < src.len() {
            string_close(src, i + 1)
        } else {
            None
        }
    } else {
        Some(i)
    }
}

/// The token type of an identifier or keyword.
pub open spec fn keyword_type(s: Seq<char>) -> TokenType {
    if s == "and"@ {
        TokenType::And
    } else if s == "class"@ {
        TokenType::Class
    } else if s == "else"@ {
        TokenType::Else
    } else if s == "false"@ {
        TokenType::False
    } else if s == "for"@ {
        TokenType::For
    } else if s == "fun"@ {
        TokenType::Fun
    } else if s == "if"@ {
        TokenType::If
    } else if s == "nil"@ {
        TokenType::Nil
    } else if s == "or"@ {
        TokenType::Or
    } else if s == "print"@ {
        TokenType::Print
    } else if s == "return"@ {
        TokenType::Return
    } else if s == "super"@ {
        TokenType::Super
    } else if s == "this"@ {
        TokenType::This
    } else if s == "true"@ {
        TokenType::True
    } else if s == "var"@ {
        TokenType::Var
    } else if s == "while"@ {
        TokenType::While
    } else {
        TokenType::Identifier
    }
}

/// A string literal, the cursor just past its opening quote.
pub open spec fn string_step(src: Seq<char>, st: LexState) -> LexStep {
    match string_close(src, st.cur) {
        None => LexStep::Abort,
        Some(i) => if at_end(src, i as int) {
            LexStep::Failed(LexError::UnexpectedEOF(1), with_cur(st, i))
        } else if can_slice(src, st.start + 1int, i as int) {
            LexStep::Continue(
                push_token(with_cur(st, i + 1), TokenType::String, slice_of(src, st.start + 1int, i as int)),
            )
        } else {
            LexStep::Abort
        },
    }
}

/// A number, the cursor just past its first digit.
pub open spec fn number_step(src: Seq<char>, st: LexState) -> LexStep {
    match nonzero_digit_run(src, st.cur) {
        None => LexStep::Abort,
        Some(i) => if src[i as int] == '.' {
            match numeric_run(src, i + 1) {
                None => LexStep::Abort,
                Some(j) => add_token_step(src, with_cur(st, j), TokenType::Number),
            }
        } else {
            add_token_step(src, with_cur(st, i), TokenType::Number)
        },
    }
}

/// An identifier or keyword, the cursor just past its first character.
pub open spec fn identifier_step(src: Seq<char>, st: LexState) -> LexStep {
    match alphanumeric_run(src, st.cur) {
        None => LexStep::Abort,
        Some(i) => if can_slice(src, st.start as int, i as int) {
            let text = slice_of(src, st.start as int, i as int);
            LexStep::Continue(push_token(with_cur(st, i), keyword_type(text), text))
        } else {
            LexStep::Abort
        },
    }
}

/// A one-character token, or a two-character one when `=` follows.
pub open spec fn one_or_two_step(
    src: Seq<char>,
    st: LexState,
    two: TokenType,
    one: TokenType,
) -> LexStep {
    if char_at(src, st.cur as int) == Some('=') {
        add_token_step(src, with_cur(st, st.cur + 1), two)
    } else {
        add_token_step(src, st, one)
    }
}

/// A block comment, the cursor just past its opening `/*`.
pub open spec fn block_comment_step(src: Seq<char>, st: LexState) -> LexStep {
    let e = skip_until(src, st.cur, '*');
    if !at_end(src, e as int) && e >= src.len() {
        LexStep::Abort
    } else {
        let f: nat = if at_end(src, e as int) {
            e
        } else {
            e + 1
        };
        let g: nat = if char_at(src, f as int) == Some('/') {
            f + 1
        } else {
            f
        };
        add_token_step(src, with_cur(st, g), TokenType::BlockComment)
    }
}

/// The token that follows a `/`, the cursor just past it.
pub open spec fn slash_step(src: Seq<char>, st: LexState) -> LexStep {
    if char_at(src, st.cur as int) == Some('/') {
        add_token_step(
            src,
            with_cur(st, skip_until(src, st.cur + 1, '\n')),
            TokenType::LineComment,
        )
    } else if char_at(src, st.cur as int) == Some('*') {
        block_comment_step(src, with_cur(st, st.cur + 1))
    } else {
        add_token_step(src, st, TokenType::Slash)
    }
}

/// The token type of a character that is a token by itself.
pub open spec fn single_char_type(c: char) -> Option<TokenType> {
    if c == '(' {
        Some(TokenType::LeftParen)
    } else if c == ')' {
        Some(TokenType::RightParen)
    } else if c == '[' {
        Some(TokenType::LeftBracket)
    } else if c == ']' {
        Some(TokenType::RightBracket)
    } else if c == '{' {
        Some(TokenType::LeftBrace)
    } else if c == '}' {
        Some(TokenType::RightBrace)
    } else if c == '-' {
        Some(TokenType::Minus)
    } else if c == '+' {
        Some(TokenType::Plus)
    } else if c == ';' {
        Some(TokenType::Semicolon)
    } else if c == '*' {
        Some(TokenType::Star)
    } else {
        None
    }
}

pub open spec fn is_identifier_start(c: char) -> bool {
    ('a' <= c && c <= 'z') || ('A' <= c && c <= 'Z') || c == '_'
}

/// Scans one token from the scanner's state.
pub open spec fn scan_token_step(src: Seq<char>, st: LexState) -> LexStep {
    if at_end(src, st.cur as int) {
        add_token_step(src, st, TokenType::Eof)
    } else if st.cur >= src.len() {
        LexStep::Abort
    } else {
        let c = src[st.cur as int];
        let st1 = with_cur(st, st.cur + 1);
        match single_char_type(c) {
            Some(t) => add_token_step(src, st1, t),
            None => if c == '/' {
                slash_step(src, st1)
            } else if c == '!' {
                one_or_two_step(src, st1, TokenType::BangEqual, TokenType::Bang)
            } else if c == '=' {
                one_or_two_step(src, st1, TokenType::EqualEqual, TokenType::Equal)
            } else if c == '<' {
                one_or_two_step(src, st1, TokenType::LessEqual, TokenType::Less)
            } else if c == '>' {
                one_or_two_step(src, st1, TokenType::GreaterEqual, TokenType::Greater)
            } else if c == '"' {
                string_step(src, st1)
            } else if '0' <= c && c <= '9' {
                number_step(src, st1)
            } else if is_identifier_start(c) {
                identifier_step(src, st1)
            } else if c == ' ' || c == '\t' || c == '\r' {
                LexStep::Continue(st1)
            } else if c == '\n' {
                LexStep::Continue(LexState { line: st1.line + 1, ..st1 })
            } else {
                LexStep::Failed(LexError::UnexpectedEOF(1), st1)
            },
        }
    }
}

/// Scans from the given state to the end of the text: on success, the final
/// state, whose last token is the end-of-file token.
pub open spec fn scan_from(src: Seq<char>, st: LexState) -> LexStep
    decreases src.len() - st.cur,
{
    if at_end(src, st.cur as int) {
        LexStep::Continue(push_token(st, TokenType::Eof, Seq::empty()))
    } else {
        match scan_token_step(src, LexState { start: st.cur, ..st }) {
            LexStep::Continue(next) => if st.cur < next.cur <= src.len() {
                scan_from(src, next)
            } else {
                LexStep::Abort
            },
            other => other,
        }
    }
}

} // verus!

verus! {

/// The states the scanner can be in: the token starts no later than the
/// cursor, the cursor lies within the text, and the line count does not
/// exceed the number of characters read plus one.
pub open spec fn state_ok(src: Seq<char>, st: LexState) -> bool {
    st.start <= st.cur <= src.len() && 1 <= st.line <= st.cur + 1
}

proof fn lemma_skip_until(src: Seq<char>, i: nat, stop: char)
    ensures
        i <= skip_until(src, i, stop),
        i <= src.len() ==> skip_until(src, i, stop) <= src.len(),
        skip_until(src, i, stop) < src.len() ==> src[skip_until(src, i, stop) as int] == stop,
    decreases src.len() - i,
{
    if i < src.len() && src[i as int] != stop {
        lemma_skip_until(src, i + 1, stop);
    }
}

proof fn lemma_runs(src: Seq<char>, i: nat)
    ensures
        nonzero_digit_run(src, i) matches Some(j) ==> i <= j < src.len(),
        numeric_run(src, i) matches Some(j) ==> i <= j < src.len(),
        alphanumeric_run(src, i) matches Some(j) ==> i <= j < src.len(),
    decreases src.len() - i,
{
    if i < src.len() {
        lemma_runs(src, i + 1);
    }
}

proof fn lemma_string_close(src: Seq<char>, i: nat)
    requires
        i <= src.len(),
    ensures
        string_close(src, i) matches Some(j) ==> {
            &&& i <= j <= src.len()
            &&& !at_end(src, j as int) ==> char_at(src, j as int) == Some('"')
        },
    decreases src.len() - i,
{
    if !at_end(src, i as int) && char_at(src, i as int) != Some('"') && i < src.len() {
        lemma_string_close(src, i + 1);
    }
}

/// One scanning step moves the cursor forward and keeps the state well formed.
pub proof fn lemma_scan_token_progress(src: Seq<char>, st: LexState)
    requires
        state_ok(src, st),
        st.start == st.cur,
        !at_end(src, st.cur as int),
    ensures
        scan_token_step(src, st) matches LexStep::Continue(n) ==> {
            &&& st.cur < n.cur
            &&& state_ok(src, n)
            &&& n.start == st.start
        },
        scan_token_step(src, st) matches LexStep::Failed(_, n) ==> state_ok(src, n),
{
    lemma_chars_within_bytes(src);
    let st1 = with_cur(st, st.cur + 1);
    if st.cur < src.len() {
        lemma_skip_until(src, st1.cur + 1, '\n');
        lemma_skip_until(src, st1.cur + 1, '*');
        lemma_runs(src, st1.cur);
        lemma_string_close(src, st1.cur);
        let i = nonzero_digit_run(src, st1.cur);
        if i is Some {
            lemma_runs(src, i->0 + 1);
        }
    }
}

proof fn lemma_prefix_boundary(bytes: Seq<u8>, i: int, e: int)
    requires
        valid_utf8(bytes),
        0 <= i <= e,
        is_char_boundary(bytes, i),
        is_char_boundary(bytes, e),
    ensures
        valid_utf8(bytes.subrange(0, e)),
        is_char_boundary(bytes.subrange(0, e), i),
{
    valid_utf8_split(bytes, e);
    let pre = bytes.subrange(0, e);
    if i == e {
        is_char_boundary_start_end_of_seq(pre);
    } else if i > 0 {
        is_char_boundary_iff_not_is_continuation_byte(bytes, i);
        is_char_boundary_iff_not_is_continuation_byte(pre, i);
    }
}

/// The text of `s` between byte offsets `start` and `end`.
fn text_slice(s: &str, start: usize, end: usize) -> (r: String)
    requires
        start <= end,
        is_char_boundary(encode_utf8(s@), start as int),
        is_char_boundary(encode_utf8(s@), end as int),
    ensures
        r@ == decode_utf8(encode_utf8(s@).subrange(start as int, end as int)),
{
    proof {
        lemma_prefix_boundary(encode_utf8(s@), start as int, end as int);
    }
    let (left, _) = s.split_at(end);
    let (_, mid) = left.split_at(start);
    proof {
        assert(encode_utf8(mid@) =~= encode_utf8(s@).subrange(start as int, end as int));
    }
    mid.to_owned()
}

/// The characters of a string.
pub(crate) fn chars_of(s: &str) -> (r: Vec<char>)
    ensures
        r@ == s@,
{
    broadcast use vstd::string::axiom_spec_iter;

    let mut r: Vec<char> = Vec::new();
    for c in it: s.chars()
        invariant
            r@ == it.seq().take(it.index()),
    {
        r.push(c);
        assert(r@ =~= it.seq().take(it.index() + 1));
    }
    assert(r@ =~= s@);
    r
}

/// Whether `s` has the same text as `lit`.
fn same_text(s: &String, lit: &str) -> (r: bool)
    ensures
        r == (s@ == lit@),
{
    let other = lit.to_owned();
    *s == other
}

/// The token type of an identifier or keyword.
fn keyword_of(s: &String) -> (t: TokenType)
    ensures
        t == keyword_type(s@),
{
    if same_text(s, "and") {
        TokenType::And
    } else if same_text(s, "class") {
        TokenType::Class
    } else if same_text(s, "else") {
        TokenType::Else
    } else if same_text(s, "false") {
        TokenType::False
    } else if same_text(s, "for") {
        TokenType::For
    } else if same_text(s, "fun") {
        TokenType::Fun
    } else if same_text(s, "if") {
        TokenType::If
    } else if same_text(s, "nil") {
        TokenType::Nil
    } else if same_text(s, "or") {
        TokenType::Or
    } else if same_text(s, "print") {
        TokenType::Print
    } else if same_text(s, "return") {
        TokenType::Return
    } else if same_text(s, "super") {
        TokenType::Super
    } else if same_text(s, "this") {
        TokenType::This
    } else if same_text(s, "true") {
        TokenType::True
    } else if same_text(s, "var") {
        TokenType::Var
    } else if same_text(s, "while") {
        TokenType::While
    } else {
        TokenType::Identifier
    }
}

} // verus!

verus! {

/// The scanner: turns Lox source text into tokens.
#[derive(Debug)]
pub struct Lexer {
    source: String,
    chars: Vec<char>,
    tokens: Vec<Token>,
    current_index: usize,
    start_index: usize,
    line_index: usize,
}

impl Lexer {
    /// The source text.
    pub closed spec fn text(&self) -> Seq<char> {
        self.source@
    }

    /// The scanner's position and the tokens found so far.
    pub closed spec fn state(&self) -> LexState {
        LexState {
            cur: self.current_index as nat,
            start: self.start_index as nat,
            line: self.line_index as nat,
            tokens: token_views(self.tokens@),
        }
    }

    /// The text fits in memory (its byte length is below `usize::MAX`) and
    /// the scanner's state is well formed.
    pub closed spec fn wf(&self) -> bool {
        &&& self.chars@ == self.source@
        &&& byte_len(self.source@) < usize::MAX
        &&& state_ok(self.source@, self.state())
    }

    /// A scanner at the start of `source` (of the empty text when there is none).
    pub fn new(source: Option<String>) -> (lexer: Self)
        requires
            source matches Some(s) ==> byte_len(s@) < usize::MAX,
        ensures
            lexer.wf(),
            lexer.text() == (match source {
                Some(s) => s@,
                None => Seq::<char>::empty(),
            }),
            lexer.state() == (LexState { cur: 0, start: 0, line: 1, tokens: Seq::empty() }),
    {
        let source = match source {
            Some(s) => s,
            None => String::new(),
        };
        let chars = chars_of(source.as_str());
        let lexer = Lexer {
            source,
            chars,
            tokens: Vec::new(),
            current_index: 0,
            start_index: 0,
            line_index: 1,
        };
        assert(lexer.state().tokens =~= Seq::<TokenView>::empty());
        lexer
    }

    /// Splits the text at whitespace into identifier tokens on line 1.
    pub fn tokenize_input(&self) -> (r: Vec<Token>)
        requires
            self.wf(),
        ensures
            token_views(r@) == words(self.text()).map_values(|w: Seq<char>| word_token(w)),
    {
        let ghost src = self.text();
        let ghost ident = |w: Seq<char>| word_token(w);
        let n = self.chars.len();
        let mut out: Vec<Token> = Vec::new();
        let mut i: usize = 0;
        proof {
            lemma_words_from(src, 0);
        }
        while i < n
            invariant
                ident == (|w: Seq<char>| word_token(w)),
                n == src.len(),
                self.chars@ == src,
                i <= n,
                words(src) == words_from(src, 0),
                words_from(src, 0).map_values(ident) == token_views(out@) + words_from(
                    src,
                    i as nat,
                ).map_values(ident),
            decreases n - i,
        {
            let ghost i0 = i;
            while i < n && is_white_space(self.chars[i])
                invariant
                    n == src.len(),
                    self.chars@ == src,
                    i0 <= i <= n,
                    space_end(src, i0 as nat) == space_end(src, i as nat),
                decreases n - i,
            {
                i = i + 1;
            }
            if i < n {
                let mut word = String::new();
                let j0 = i;
                while i < n && !is_white_space(self.chars[i])
                    invariant
                        n == src.len(),
                        self.chars@ == src,
                        j0 <= i <= n,
                        word@ == src.subrange(j0 as int, i as int),
                        word_end(src, j0 as nat) == word_end(src, i as nat),
                    decreases n - i,
                {
                    push_char(&mut word, self.chars[i]);
                    i = i + 1;
                    assert(word@ =~= src.subrange(j0 as int, i as int));
                }
                proof {
                    lemma_word_end(src, j0 as nat);
                    lemma_space_end(src, i0 as nat);
                    lemma_words_from(src, i as nat);
                }
                let ghost prev = out@;
                let ghost w = word@;
                let tok = Token::new(TokenType::Identifier, word, 1);
                assert(w == src.subrange(j0 as int, i as int));
                assert(tok@.lexeme == w);
                assert(tok@ == ident(w));
                out.push(tok);
                proof {
                    assert(words_from(src, i0 as nat) == seq![src.subrange(j0 as int, i as int)]
                        + words_from(src, i as nat));
                    assert(token_views(out@) =~= token_views(prev).push(
                        ident(src.subrange(j0 as int, i as int)),
                    ));
                    assert((seq![src.subrange(j0 as int, i as int)] + words_from(
                        src,
                        i as nat,
                    )).map_values(ident) =~= seq![ident(src.subrange(j0 as int, i as int))]
                        + words_from(src, i as nat).map_values(ident));
                    assert(token_views(out@) + words_from(src, i as nat).map_values(ident)
                        =~= token_views(prev) + words_from(src, i0 as nat).map_values(ident));
                }
            } else {
                proof {
                    lemma_space_end(src, i0 as nat);
                    assert(words_from(src, i0 as nat) =~= Seq::<Seq<char>>::empty());
                    assert(words_from(src, i as nat) =~= Seq::<Seq<char>>::empty());
                }
            }
        }
        proof {
            assert(words_from(src, i as nat) =~= Seq::<Seq<char>>::empty());
            assert(token_views(out@) + Seq::<TokenView>::empty() =~= token_views(out@));
        }
        out
    }
}

/// The identifier token on line 1 with text `w`.
pub open spec fn word_token(w: Seq<char>) -> TokenView {
    TokenView { token_type: TokenType::Identifier, lexeme: w, line: 1 }
}

/// End of the run of whitespace from `i`.
pub open spec fn space_end(s: Seq<char>, i: nat) -> nat
    decreases s.len() - i,
{
    if i < s.len() && white_space(s[i as int]) {
        space_end(s, i + 1)
    } else {
        i
    }
}

/// End of the run of non-whitespace characters from `i`.
pub open spec fn word_end(s: Seq<char>, i: nat) -> nat
    decreases s.len() - i,
{
    if i < s.len() && !white_space(s[i as int]) {
        word_end(s, i + 1)
    } else {
        i
    }
}

/// The maximal runs of non-whitespace characters from position `i` on.
pub open spec fn words_from(s: Seq<char>, i: nat) -> Seq<Seq<char>>
    decreases s.len() - i,
{
    let j = space_end(s, i);
    if j >= s.len() {
        Seq::empty()
    } else {
        let k = word_end(s, j);
        if i < k <= s.len() {
            seq![s.subrange(j as int, k as int)] + words_from(s, k)
        } else {
            Seq::empty()
        }
    }
}

/// The words of a text: its maximal runs of non-whitespace characters.
pub open spec fn words(s: Seq<char>) -> Seq<Seq<char>> {
    words_from(s, 0)
}

proof fn lemma_space_end(s: Seq<char>, i: nat)
    ensures
        i <= space_end(s, i),
        i <= s.len() ==> space_end(s, i) <= s.len(),
        space_end(s, i) < s.len() ==> !white_space(s[space_end(s, i) as int]),
    decreases s.len() - i,
{
    if i < s.len() && white_space(s[i as int]) {
        lemma_space_end(s, i + 1);
    }
}

proof fn lemma_word_end(s: Seq<char>, i: nat)
    ensures
        i <= word_end(s, i),
        i <= s.len() ==> word_end(s, i) <= s.len(),
        word_end(s, i) < s.len() ==> white_space(s[word_end(s, i) as int]),
        forall|k: int| i <= k < word_end(s, i) ==> !white_space(#[trigger] s[k]),
    decreases s.len() - i,
{
    if i < s.len() && !white_space(s[i as int]) {
        lemma_word_end(s, i + 1);
    }
}

proof fn lemma_words_from(s: Seq<char>, i: nat)
    requires
        i <= s.len(),
    ensures
        space_end(s, i) < s.len() ==> {
            &&& space_end(s, i) < word_end(s, space_end(s, i)) <= s.len()
            &&& words_from(s, i) == seq![s.subrange(space_end(s, i) as int, word_end(s, space_end(s, i)) as int)]
                + words_from(s, word_end(s, space_end(s, i)))
        },
        space_end(s, i) >= s.len() ==> words_from(s, i) == Seq::<Seq<char>>::empty(),
{
    lemma_space_end(s, i);
    let j = space_end(s, i);
    if j < s.len() {
        lemma_word_end(s, j);
    }
}

} // verus!

verus! {

impl Lexer {
    /// Whether the cursor has reached the end of the text, counted in bytes.
    fn reached_end(&self) -> (r: bool)
        requires
            self.wf(),
        ensures
            r == at_end(self.text(), self.state().cur as int),
    {
        self.current_index >= self.source.as_str().len()
    }

    /// The character under the cursor.
    fn peek(&self) -> (r: Option<char>)
        requires
            self.wf(),
        ensures
            r == char_at(self.text(), self.state().cur as int),
    {
        if self.current_index < self.chars.len() {
            Some(self.chars[self.current_index])
        } else {
            None
        }
    }

    /// The character after the one under the cursor.
    fn peek_next(&self) -> (r: Option<char>)
        requires
            self.wf(),
        ensures
            r == char_at(self.text(), self.state().cur + 1int),
    {
        proof {
            lemma_chars_within_bytes(self.text());
        }
        if self.current_index + 1 < self.chars.len() {
            Some(self.chars[self.current_index + 1])
        } else {
            None
        }
    }

    /// Moves past the character under the cursor and returns it; at the end of
    /// the text, reports an unexpected end.
    fn advance(&mut self) -> (r: Result<char, LexError>)
        requires
            old(self).wf(),
            old(self).state().cur < old(self).text().len() || at_end(
                old(self).text(),
                old(self).state().cur as int,
            ),
        ensures
            final(self).wf(),
            final(self).text() == old(self).text(),
            if at_end(old(self).text(), old(self).state().cur as int) {
                &&& r == Err::<char, LexError>(LexError::UnexpectedEOF(1))
                &&& final(self).state() == old(self).state()
            } else {
                &&& r == Ok::<char, LexError>(old(self).text()[old(self).state().cur as int])
                &&& final(self).state() == with_cur(old(self).state(), old(self).state().cur + 1)
            },
    {
        if self.current_index >= self.source.as_str().len() {
            Err(LexError::UnexpectedEOF(1))
        } else {
            self.current_index = self.current_index + 1;
            Ok(self.chars[self.current_index - 1])
        }
    }

    /// Moves the cursor while the character under it satisfies `predicate_fn`,
    /// which holds of exactly the characters other than `stop`.
    fn advance_while(&mut self, predicate_fn: impl Fn(char) -> bool, Ghost(stop): Ghost<char>)
        requires
            old(self).wf(),
            forall|c: char| call_requires(predicate_fn, (c,)),
            forall|c: char, b: bool| call_ensures(predicate_fn, (c,), b) ==> b == (c != stop),
        ensures
            final(self).wf(),
            final(self).text() == old(self).text(),
            final(self).state() == with_cur(
                old(self).state(),
                skip_until(old(self).text(), old(self).state().cur, stop),
            ),
    {
        proof {
            lemma_chars_within_bytes(self.text());
        }
        loop
            invariant
                self.wf(),
                self.text() == old(self).text(),
                self.state() == with_cur(old(self).state(), self.state().cur),
                skip_until(self.text(), old(self).state().cur, stop) == skip_until(
                    self.text(),
                    self.state().cur,
                    stop,
                ),
                forall|c: char| call_requires(predicate_fn, (c,)),
                forall|c: char, b: bool| call_ensures(predicate_fn, (c,), b) ==> b == (c != stop),
                self.text().len() <= byte_len(self.text()),
            ensures
                self.wf(),
                self.text() == old(self).text(),
                self.state() == with_cur(old(self).state(), self.state().cur),
                skip_until(self.text(), old(self).state().cur, stop) == self.state().cur,
            decreases self.text().len() - self.state().cur,
        {
            let go = match self.peek() {
                Some(c) => predicate_fn(c),
                None => false,
            };
            if !go {
                break;
            }
            let _ = self.advance();
        }
    }

    /// Whether the text from the start of the token to the cursor can be cut out.
    fn token_text_fits(&self, start: usize, end: usize) -> (r: bool)
        requires
            self.wf(),
        ensures
            r == can_slice(self.text(), start as int, end as int),
    {
        start <= end && self.source.as_str().is_char_boundary(start)
            && self.source.as_str().is_char_boundary(end)
    }

    fn push_token(&mut self, token_type: TokenType, lexeme: String)
        requires
            old(self).wf(),
        ensures
            final(self).wf(),
            final(self).text() == old(self).text(),
            final(self).state() == push_token(old(self).state(), token_type, lexeme@),
    {
        let ghost prev = self.tokens@;
        let tok = Token::new(token_type, lexeme, self.line_index);
        self.tokens.push(tok);
        assert(token_views(self.tokens@) =~= token_views(prev).push(tok@));
    }

    /// Adds a token whose text runs from the start of the token to the cursor.
    fn add_token(&mut self, token_type: TokenType)
        requires
            old(self).wf(),
            can_slice(old(self).text(), old(self).state().start as int, old(self).state().cur as int),
        ensures
            add_token_step(old(self).text(), old(self).state(), token_type) == LexStep::Continue(
                final(self).state(),
            ),
            final(self).wf(),
            final(self).text() == old(self).text(),
    {
        let lexeme = text_slice(self.source.as_str(), self.start_index, self.current_index);
        self.push_token(token_type, lexeme);
    }

    /// `add_token`, or `None` where the token's text cannot be cut out.
    fn add_token_checked(&mut self, token_type: TokenType) -> (r: Option<Result<(), LexError>>)
        requires
            old(self).wf(),
        ensures
            final(self).wf(),
            final(self).text() == old(self).text(),
            step_result(add_token_step(old(self).text(), old(self).state(), token_type), r, final(self).state()),
    {
        if !self.token_text_fits(self.start_index, self.current_index) {
            return None;
        }
        self.add_token(token_type);
        Some(Ok(()))
    }
}

fn not_newline(c: char) -> (b: bool)
    ensures
        b == (c != '\n'),
{
    c != '\n'
}

fn not_star(c: char) -> (b: bool)
    ensures
        b == (c != '*'),
{
    c != '*'
}

/// How the result of a scanning function and the scanner's final state
/// correspond to the outcome of a step.
pub open spec fn step_result(step: LexStep, r: Option<Result<(), LexError>>, st: LexState) -> bool {
    match step {
        LexStep::Continue(s) => r == Some(Ok::<(), LexError>(())) && st == s,
        LexStep::Failed(e, s) => r == Some(Err::<(), LexError>(e)) && st == s,
        LexStep::Abort => r is None,
    }
}

} // verus!

verus! {

impl Lexer {
    /// A string literal, the cursor just past its opening quote.
    fn add_string_token(&mut self) -> (r: Option<Result<(), LexError>>)
        requires
            old(self).wf(),
        ensures
            final(self).wf(),
            final(self).text() == old(self).text(),
            step_result(string_step(old(self).text(), old(self).state()), r, final(self).state()),
    {
        let ghost src = self.text();
        let ghost cur0 = self.state().cur;
        proof {
            lemma_chars_within_bytes(src);
            lemma_string_close(src, cur0);
        }
        let mut go = self.peek() != Some('"') && !self.reached_end();
        while go
            invariant
                self.wf(),
                self.text() == src,
                src == old(self).text(),
                cur0 == old(self).state().cur,
                src.len() <= byte_len(src),
                self.state() == with_cur(old(self).state(), self.state().cur),
                string_close(src, cur0) == string_close(src, self.state().cur),
                go == (char_at(src, self.state().cur as int) != Some('"') && !at_end(
                    src,
                    self.state().cur as int,
                )),
            decreases src.len() - self.state().cur,
        {
            if self.current_index >= self.chars.len() {
                return None;
            }
            let _ = self.advance();
            go = self.peek() != Some('"') && !self.reached_end();
        }
        if self.reached_end() {
            return Some(Err(LexError::UnexpectedEOF(1)));
        }
        let _ = self.advance();
        if !self.token_text_fits(self.start_index + 1, self.current_index - 1) {
            return None;
        }
        let lexeme = text_slice(
            self.source.as_str(),
            self.start_index + 1,
            self.current_index - 1,
        );
        self.push_token(TokenType::String, lexeme);
        Some(Ok(()))
    }

    /// A number, the cursor just past its first digit.
    fn add_number_token(&mut self) -> (r: Option<Result<(), LexError>>)
        requires
            old(self).wf(),
        ensures
            final(self).wf(),
            final(self).text() == old(self).text(),
            step_result(number_step(old(self).text(), old(self).state()), r, final(self).state()),
    {
        let ghost src = self.text();
        let ghost cur0 = self.state().cur;
        proof {
            lemma_chars_within_bytes(src);
            lemma_runs(src, cur0);
        }
        loop
            invariant
                self.wf(),
                self.text() == src,
                src == old(self).text(),
                cur0 == old(self).state().cur,
                src.len() <= byte_len(src),
                self.state() == with_cur(old(self).state(), self.state().cur),
                nonzero_digit_run(src, cur0) == nonzero_digit_run(src, self.state().cur),
            ensures
                self.wf(),
                self.text() == src,
                self.state() == with_cur(old(self).state(), self.state().cur),
                nonzero_digit_run(src, cur0) == Some(self.state().cur),
            decreases src.len() - self.state().cur,
        {
            match self.peek() {
                None => {
                    return None;
                },
                Some(c) => {
                    if is_numeric(c) && c != '0' {
                        let _ = self.advance();
                    } else {
                        break ;
                    }
                },
            }
        }
        let dot = match self.peek() {
            Some(c) => c == '.',
            None => false,
        };
        if dot {
            let _ = self.advance();
            let ghost cur1 = self.state().cur;
            loop
                invariant
                    self.wf(),
                    self.text() == src,
                    src == old(self).text(),
                    cur0 == old(self).state().cur,
                    nonzero_digit_run(src, cur0) == Some((cur1 - 1) as nat),
                    cur1 >= 1 && src[cur1 - 1] == '.',
                    src.len() <= byte_len(src),
                    self.state() == with_cur(old(self).state(), self.state().cur),
                    numeric_run(src, cur1) == numeric_run(src, self.state().cur),
                ensures
                    self.wf(),
                    self.text() == src,
                    self.state() == with_cur(old(self).state(), self.state().cur),
                    numeric_run(src, cur1) == Some(self.state().cur),
                decreases src.len() - self.state().cur,
            {
                match self.peek() {
                    None => {
                        return None;
                    },
                    Some(c) => {
                        if is_numeric(c) {
                            let _ = self.advance();
                        } else {
                            break ;
                        }
                    },
                }
            }
        }
        self.add_token_checked(TokenType::Number)
    }

    /// An identifier or keyword, the cursor just past its first character.
    fn add_keyword_or_identifier_token(&mut self) -> (r: Option<Result<(), LexError>>)
        requires
            old(self).wf(),
        ensures
            final(self).wf(),
            final(self).text() == old(self).text(),
            step_result(identifier_step(old(self).text(), old(self).state()), r, final(self).state()),
    {
        let ghost src = self.text();
        let ghost cur0 = self.state().cur;
        proof {
            lemma_chars_within_bytes(src);
            lemma_runs(src, cur0);
        }
        loop
            invariant
                self.wf(),
                self.text() == src,
                src == old(self).text(),
                cur0 == old(self).state().cur,
                src.len() <= byte_len(src),
                self.state() == with_cur(old(self).state(), self.state().cur),
                alphanumeric_run(src, cur0) == alphanumeric_run(src, self.state().cur),
            ensures
                self.wf(),
                self.text() == src,
                self.state() == with_cur(old(self).state(), self.state().cur),
                alphanumeric_run(src, cur0) == Some(self.state().cur),
            decreases src.len() - self.state().cur,
        {
            match self.peek() {
                None => {
                    return None;
                },
                Some(c) => {
                    if is_alphanumeric(c) {
                        let _ = self.advance();
                    } else {
                        break ;
                    }
                },
            }
        }
        if !self.token_text_fits(self.start_index, self.current_index) {
            return None;
        }
        let lexeme = text_slice(self.source.as_str(), self.start_index, self.current_index);
        let token_type = keyword_of(&lexeme);
        self.push_token(token_type, lexeme);
        Some(Ok(()))
    }
}

} // verus!

verus! {

impl Lexer {
    /// A one-character token, or a two-character one when `=` follows.
    fn add_one_or_two(&mut self, two: TokenType, one: TokenType) -> (r: Option<Result<(), LexError>>)
        requires
            old(self).wf(),
        ensures
            final(self).wf(),
            final(self).text() == old(self).text(),
            step_result(one_or_two_step(old(self).text(), old(self).state(), two, one), r, final(self).state()),
    {
        proof {
            lemma_chars_within_bytes(self.text());
        }
        match self.peek() {
            Some('=') => {
                let _ = self.advance();
                self.add_token_checked(two)
            },
            _ => self.add_token_checked(one),
        }
    }

    /// The token that follows a `/`, the cursor just past it.
    fn add_slash_token(&mut self) -> (r: Option<Result<(), LexError>>)
        requires
            old(self).wf(),
        ensures
            final(self).wf(),
            final(self).text() == old(self).text(),
            step_result(slash_step(old(self).text(), old(self).state()), r, final(self).state()),
    {
        proof {
            lemma_chars_within_bytes(self.text());
        }
        match self.peek() {
            Some('/') => {
                self.advance().ok();
                self.advance_while(not_newline, Ghost('\n'));
                self.add_token_checked(TokenType::LineComment)
            },
            Some('*') => {
                self.advance().ok();
                self.advance_while(not_star, Ghost('*'));
                // Check for end slash since * is reserved.
                if !self.reached_end() && self.current_index >= self.chars.len() {
                    return None;
                }
                self.advance().ok();
                if self.peek() == Some('/') {
                    self.advance().ok();
                }
                self.add_token_checked(TokenType::BlockComment)
            },
            _ => self.add_token_checked(TokenType::Slash),
        }
    }

    /// Scans one token.
    fn scan_token(&mut self) -> (r: Option<Result<(), LexError>>)
        requires
            old(self).wf(),
        ensures
            final(self).wf(),
            final(self).text() == old(self).text(),
            step_result(scan_token_step(old(self).text(), old(self).state()), r, final(self).state()),
    {
        if self.reached_end() {
            return self.add_token_checked(TokenType::Eof);
        }
        if self.current_index >= self.chars.len() {
            return None;
        }
        let c = match self.advance() {
            Ok(c) => c,
            Err(_) => return None,
        };
        if c == '(' {
            self.add_token_checked(TokenType::LeftParen)
        } else if c == ')' {
            self.add_token_checked(TokenType::RightParen)
        } else if c == '[' {
            self.add_token_checked(TokenType::LeftBracket)
        } else if c == ']' {
            self.add_token_checked(TokenType::RightBracket)
        } else if c == '{' {
            self.add_token_checked(TokenType::LeftBrace)
        } else if c == '}' {
            self.add_token_checked(TokenType::RightBrace)
        } else if c == '-' {
            self.add_token_checked(TokenType::Minus)
        } else if c == '+' {
            self.add_token_checked(TokenType::Plus)
        } else if c == ';' {
            self.add_token_checked(TokenType::Semicolon)
        } else if c == '*' {
            self.add_token_checked(TokenType::Star)
        } else if c == '/' {
            self.add_slash_token()
        } else if c == '!' {
            self.add_one_or_two(TokenType::BangEqual, TokenType::Bang)
        } else if c == '=' {
            self.add_one_or_two(TokenType::EqualEqual, TokenType::Equal)
        } else if c == '<' {
            self.add_one_or_two(TokenType::LessEqual, TokenType::Less)
        } else if c == '>' {
            self.add_one_or_two(TokenType::GreaterEqual, TokenType::Greater)
        } else if c == '"' {
            self.add_string_token()
        } else if '0' <= c && c <= '9' {
            self.add_number_token()
        } else if ('a' <= c && c <= 'z') || ('A' <= c && c <= 'Z') || c == '_' {
            self.add_keyword_or_identifier_token()
        } else if c == ' ' || c == '\t' || c == '\r' {
            Some(Ok(()))
        } else if c == '\n' {
            self.line_index = self.line_index + 1;
            Some(Ok(()))
        } else {
            Some(Err(LexError::UnexpectedEOF(1)))
        }
    }

    /// Scans the rest of the text; `None` where the scan is undefined (see
    /// `LexStep::Abort`).
    pub fn try_scan_tokens(&mut self) -> (r: Option<Result<Vec<Token>, LexError>>)
        requires
            old(self).wf(),
        ensures
            final(self).wf(),
            final(self).text() == old(self).text(),
            match scan_from(old(self).text(), old(self).state()) {
                LexStep::Continue(s) => {
                    &&& final(self).state() == s
                    &&& r matches Some(Ok(tokens))
                    &&& token_views(tokens@) == s.tokens
                },
                LexStep::Failed(e, s) => {
                    &&& final(self).state() == s
                    &&& r == Some(Err::<Vec<Token>, LexError>(e))
                },
                LexStep::Abort => r is None,
            },
    {
        let ghost src = self.text();
        while !self.reached_end()
            invariant
                self.wf(),
                self.text() == src,
                src == old(self).text(),
                scan_from(src, self.state()) == scan_from(src, old(self).state()),
            decreases src.len() - self.state().cur,
        {
            self.start_index = self.current_index;
            proof {
                lemma_scan_token_progress(src, self.state());
            }
            match self.scan_token() {
                None => {
                    return None;
                },
                Some(Err(e)) => {
                    return Some(Err(e));
                },
                Some(Ok(())) => {},
            }
        }
        self.push_token(TokenType::Eof, String::new());
        Some(Ok(copy_tokens(&self.tokens)))
    }

    /// Scans the rest of the text into tokens, ending with an end-of-file
    /// token, or reports the first error.
    pub fn scan_tokens(&mut self) -> (r: Result<Vec<Token>, LexError>)
        requires
            old(self).wf(),
            !(scan_from(old(self).text(), old(self).state()) is Abort),
        ensures
            final(self).wf(),
            final(self).text() == old(self).text(),
            match scan_from(old(self).text(), old(self).state()) {
                LexStep::Continue(s) => {
                    &&& final(self).state() == s
                    &&& r matches Ok(tokens)
                    &&& token_views(tokens@) == s.tokens
                },
                LexStep::Failed(e, s) => {
                    &&& final(self).state() == s
                    &&& r == Err::<Vec<Token>, LexError>(e)
                },
                LexStep::Abort => false,
            },
    {
        match self.try_scan_tokens() {
            Some(r) => r,
            None => Err(LexError::UnexpectedEOF(1)),
        }
    }
}

} // verus!

verus! {

/// The name of a token type, as `{:?}` writes it.
pub open spec fn token_type_name(t: TokenType) -> Seq<char> {
    match t {
        TokenType::LeftParen => "LeftParen"@,
        TokenType::RightParen => "RightParen"@,
        TokenType::LeftBrace => "LeftBrace"@,
        TokenType::RightBrace => "RightBrace"@,
        TokenType::LeftBracket => "LeftBracket"@,
        TokenType::RightBracket => "RightBracket"@,
        TokenType::Minus => "Minus"@,
        TokenType::Plus => "Plus"@,
        TokenType::Semicolon => "Semicolon"@,
        TokenType::Slash => "Slash"@,
        TokenType::Star => "Star"@,
        TokenType::QuestionMark => "QuestionMark"@,
        TokenType::Colon => "Colon"@,
        TokenType::Bang => "Bang"@,
        TokenType::BangEqual => "BangEqual"@,
        TokenType::Equal => "Equal"@,
        TokenType::EqualEqual => "EqualEqual"@,
        TokenType::Greater => "Greater"@,
        TokenType::GreaterEqual => "GreaterEqual"@,
        TokenType::Less => "Less"@,
        TokenType::LessEqual => "LessEqual"@,
        TokenType::LineComment => "LineComment"@,
        TokenType::BlockComment => "BlockComment"@,
        TokenType::Identifier => "Identifier"@,
        TokenType::String => "String"@,
        TokenType::Number => "Number"@,
        TokenType::And => "And"@,
        TokenType::Class => "Class"@,
        TokenType::Else => "Else"@,
        TokenType::False => "False"@,
        TokenType::Fun => "Fun"@,
        TokenType::For => "For"@,
        TokenType::If => "If"@,
        TokenType::Nil => "Nil"@,
        TokenType::Or => "Or"@,
        TokenType::Print => "Print"@,
        TokenType::Return => "Return"@,
        TokenType::Super => "Super"@,
        TokenType::This => "This"@,
        TokenType::True => "True"@,
        TokenType::Var => "Var"@,
        TokenType::While => "While"@,
        TokenType::Eof => "Eof"@,
    }
}

impl TokenType {
    /// The name of the token type, as `{:?}` writes it.
    pub fn name(&self) -> (r: &'static str)
        ensures
            r@ == token_type_name(*self),
    {
        match self {
            TokenType::LeftParen => "LeftParen",
            TokenType::RightParen => "RightParen",
            TokenType::LeftBrace => "LeftBrace",
            TokenType::RightBrace => "RightBrace",
            TokenType::LeftBracket => "LeftBracket",
            TokenType::RightBracket => "RightBracket",
            TokenType::Minus => "Minus",
            TokenType::Plus => "Plus",
            TokenType::Semicolon => "Semicolon",
            TokenType::Slash => "Slash",
            TokenType::Star => "Star",
            TokenType::QuestionMark => "QuestionMark",
            TokenType::Colon => "Colon",
            TokenType::Bang => "Bang",
            TokenType::BangEqual => "BangEqual",
            TokenType::Equal => "Equal",
            TokenType::EqualEqual => "EqualEqual",
            TokenType::Greater => "Greater",
            TokenType::GreaterEqual => "GreaterEqual",
            TokenType::Less => "Less",
            TokenType::LessEqual => "LessEqual",
            TokenType::LineComment => "LineComment",
            TokenType::BlockComment => "BlockComment",
            TokenType::Identifier => "Identifier",
            TokenType::String => "String",
            TokenType::Number => "Number",
            TokenType::And => "And",
            TokenType::Class => "Class",
            TokenType::Else => "Else",
            TokenType::False => "False",
            TokenType::Fun => "Fun",
            TokenType::For => "For",
            TokenType::If => "If",
            TokenType::Nil => "Nil",
            TokenType::Or => "Or",
            TokenType::Print => "Print",
            TokenType::Return => "Return",
            TokenType::Super => "Super",
            TokenType::This => "This",
            TokenType::True => "True",
            TokenType::Var => "Var",
            TokenType::While => "While",
            TokenType::Eof => "Eof",
        }
    }
}

/// A token as `{:?}` writes it.
pub open spec fn token_debug(t: TokenView) -> Seq<char> {
    "Token { token_type: "@ + token_type_name(t.token_type) + ", lexeme: "@ + debug_form(t.lexeme)
        + ", line: "@ + decimal(t.line) + " }"@
}

/// A token as `{}` writes it: its type's name, a space and its text.
pub open spec fn token_display(t: TokenView) -> Seq<char> {
    token_type_name(t.token_type) + " "@ + t.lexeme
}

impl Token {
    /// The token as `{:?}` writes it.
    pub fn debug_string(&self) -> (r: String)
        ensures
            r@ == token_debug(self@),
    {
        let r = "Token { token_type: ".to_owned();
        let r = concat(r, self.token_type.name());
        let r = concat(r, ", lexeme: ");
        let q = debug_text(self.lexeme.as_str());
        let r = concat(r, q.as_str());
        let r = concat(r, ", line: ");
        let d = decimal_text(self.line);
        let r = concat(r, d.as_str());
        concat(r, " }")
    }

    /// The token as `{}` writes it: its type's name, a space and its text.
    pub fn to_display_string(&self) -> (r: String)
        ensures
            r@ == token_display(self@),
    {
        let r = self.token_type.name().to_owned();
        let r = concat(r, " ");
        concat(r, self.lexeme.as_str())
    }
}

} // verus!

verus! {

/// Token lines start at 1, never decrease, and do not exceed `line`.
pub open spec fn lines_ordered(tokens: Seq<TokenView>, line: nat) -> bool {
    &&& forall|i: int| 0 <= i < tokens.len() ==> 1 <= #[trigger] tokens[i].line <= line
    &&& forall|i: int, j: int|
        0 <= i <= j < tokens.len() ==> #[trigger] tokens[i].line <= #[trigger] tokens[j].line
}

/// `longer` starts with `shorter`.
pub open spec fn extends(longer: Seq<TokenView>, shorter: Seq<TokenView>) -> bool {
    shorter.len() <= longer.len() && longer.subrange(0, shorter.len() as int) == shorter
}

/// No token from position `from` on is an end-of-file token.
pub open spec fn no_eof_from(tokens: Seq<TokenView>, from: int) -> bool {
    forall|i: int| from <= i < tokens.len() ==> (#[trigger] tokens[i]).token_type != TokenType::Eof
}

proof fn lemma_push_ordered(st: LexState)
    requires
        1 <= st.line,
        lines_ordered(st.tokens, st.line),
    ensures
        forall|m: LexState, t: TokenType, lx: Seq<char>|
            #![trigger push_token(m, t, lx)]
            m.tokens == st.tokens && m.line == st.line ==> {
                let n = push_token(m, t, lx);
                &&& lines_ordered(n.tokens, n.line)
                &&& extends(n.tokens, st.tokens)
                &&& n.line == st.line
                &&& n.tokens.len() == st.tokens.len() + 1
                &&& n.tokens.last() == (TokenView { token_type: t, lexeme: lx, line: st.line })
            },
{
    assert forall|m: LexState, t: TokenType, lx: Seq<char>|
        #![trigger push_token(m, t, lx)]
        m.tokens == st.tokens && m.line == st.line implies {
            let n = push_token(m, t, lx);
            &&& lines_ordered(n.tokens, n.line)
            &&& extends(n.tokens, st.tokens)
        } by {
        let n = push_token(m, t, lx);
        assert(n.tokens.subrange(0, st.tokens.len() as int) =~= st.tokens);
    }
}

/// One scanning step keeps the tokens found so far, adds tokens on the
/// current line, adds no end-of-file token before the end, and never
/// decreases the line.
proof fn lemma_step_tokens(src: Seq<char>, st: LexState)
    requires
        1 <= st.line,
        lines_ordered(st.tokens, st.line),
        !at_end(src, st.cur as int),
    ensures
        scan_token_step(src, st) matches LexStep::Continue(n) ==> {
            &&& extends(n.tokens, st.tokens)
            &&& st.line <= n.line
            &&& lines_ordered(n.tokens, n.line)
            &&& no_eof_from(n.tokens, st.tokens.len() as int)
        },
        scan_token_step(src, st) matches LexStep::Failed(e, n) ==> {
            &&& e == LexError::UnexpectedEOF(1)
            &&& extends(n.tokens, st.tokens)
            &&& st.line <= n.line
            &&& lines_ordered(n.tokens, n.line)
        },
{
    lemma_push_ordered(st);
    assert(st.tokens.subrange(0, st.tokens.len() as int) =~= st.tokens);
}

/// A scan that succeeds keeps the tokens found before it, ends with a single
/// end-of-file token with no text on the last line, stops at the end of the
/// text, and gives tokens whose lines never decrease; one that fails keeps the
/// tokens found before it too, and reports an unexpected end on line 1 (the
/// one error the scanner gives).
pub proof fn law_scan_result(src: Seq<char>, st: LexState)
    requires
        1 <= st.line,
        lines_ordered(st.tokens, st.line),
        state_ok(src, st),
    ensures
        scan_from(src, st) matches LexStep::Continue(s) ==> {
            &&& extends(s.tokens, st.tokens)
            &&& s.tokens.len() > st.tokens.len()
            &&& s.tokens.last() == (TokenView {
                token_type: TokenType::Eof,
                lexeme: Seq::empty(),
                line: s.line,
            })
            &&& no_eof_from(s.tokens.drop_last(), st.tokens.len() as int)
            &&& lines_ordered(s.tokens, s.line)
            &&& at_end(src, s.cur as int)
        },
        scan_from(src, st) matches LexStep::Failed(e, s) ==> {
            &&& e == LexError::UnexpectedEOF(1)
            &&& extends(s.tokens, st.tokens)
            &&& lines_ordered(s.tokens, s.line)
        },
    decreases src.len() - st.cur,
{
    lemma_push_ordered(st);
    if !at_end(src, st.cur as int) {
        let st0 = LexState { start: st.cur, ..st };
        lemma_step_tokens(src, st0);
        lemma_scan_token_progress(src, st0);
        match scan_token_step(src, st0) {
            LexStep::Continue(n) => {
                if st.cur < n.cur <= src.len() {
                    law_scan_result(src, n);
                    match scan_from(src, n) {
                        LexStep::Continue(s) => {
                            assert(s.tokens.subrange(0, st.tokens.len() as int) =~= n.tokens.subrange(
                                0,
                                st.tokens.len() as int,
                            ));
                            assert forall|i: int|
                                st.tokens.len() <= i < s.tokens.drop_last().len() implies (
                            #[trigger] s.tokens.drop_last()[i]).token_type != TokenType::Eof by {
                                if i < n.tokens.len() {
                                    assert(s.tokens.drop_last()[i] == s.tokens.subrange(
                                        0,
                                        n.tokens.len() as int,
                                    )[i]);
                                } else {
                                    assert(s.tokens.drop_last()[i] == s.tokens.drop_last()[i]);
                                }
                            }
                        },
                        LexStep::Failed(_, s) => {
                            assert(s.tokens.subrange(0, st.tokens.len() as int) =~= n.tokens.subrange(
                                0,
                                st.tokens.len() as int,
                            ));
                        },
                        _ => {},
                    }
                }
            },
            _ => {},
        }
    } else {
        let s = push_token(st, TokenType::Eof, Seq::empty());
        assert(s.tokens.drop_last() =~= st.tokens);
    }
}

} // verus!

verus! {

/// The characters of `s` that are not whitespace, in order.
pub open spec fn non_white(s: Seq<char>) -> Seq<char>
    decreases s.len(),
{
    if s.len() == 0 {
        Seq::empty()
    } else if white_space(s[0]) {
        non_white(s.drop_first())
    } else {
        seq![s[0]] + non_white(s.drop_first())
    }
}

/// The concatenation of a list of texts.
pub open spec fn concat_all(ws: Seq<Seq<char>>) -> Seq<char>
    decreases ws.len(),
{
    if ws.len() == 0 {
        Seq::empty()
    } else {
        ws[0] + concat_all(ws.drop_first())
    }
}

proof fn lemma_skip_spaces(s: Seq<char>, i: nat)
    requires
        i <= s.len(),
    ensures
        non_white(s.skip(i as int)) == non_white(s.skip(space_end(s, i) as int)),
    decreases s.len() - i,
{
    if i < s.len() && white_space(s[i as int]) {
        assert(s.skip(i as int).drop_first() =~= s.skip(i + 1int));
        lemma_skip_spaces(s, i + 1);
    }
}

proof fn lemma_take_word(s: Seq<char>, j: nat)
    requires
        j <= s.len(),
    ensures
        non_white(s.skip(j as int)) == s.subrange(j as int, word_end(s, j) as int) + non_white(
            s.skip(word_end(s, j) as int),
        ),
    decreases s.len() - j,
{
    lemma_word_end(s, j);
    if j < s.len() && !white_space(s[j as int]) {
        assert(s.skip(j as int).drop_first() =~= s.skip(j + 1int));
        lemma_take_word(s, j + 1);
        assert(s.subrange(j as int, word_end(s, j) as int) =~= seq![s[j as int]] + s.subrange(
            j + 1int,
            word_end(s, j + 1) as int,
        ));
    } else {
        assert(s.subrange(j as int, j as int) =~= Seq::<char>::empty());
    }
}

/// The words of a text are non-empty and hold no whitespace, and together
/// they are its non-whitespace characters, in order.
pub proof fn law_words_cover_text(s: Seq<char>, i: nat)
    requires
        i <= s.len(),
    ensures
        concat_all(words_from(s, i)) == non_white(s.skip(i as int)),
        forall|w: int|
            0 <= w < words_from(s, i).len() ==> (#[trigger] words_from(s, i)[w]).len() > 0
                && forall|c: int|
                0 <= c < words_from(s, i)[w].len() ==> !white_space(
                    #[trigger] words_from(s, i)[w][c],
                ),
    decreases s.len() - i,
{
    lemma_words_from(s, i);
    lemma_skip_spaces(s, i);
    lemma_space_end(s, i);
    let j = space_end(s, i);
    if j >= s.len() {
        assert(s.skip(j as int) =~= Seq::<char>::empty());
    } else {
        let k = word_end(s, j);
        lemma_word_end(s, j);
        lemma_take_word(s, j);
        law_words_cover_text(s, k);
        let ws = words_from(s, i);
        assert(ws.drop_first() =~= words_from(s, k));
        assert forall|w: int| 0 <= w < ws.len() implies (#[trigger] ws[w]).len() > 0 && forall|
            c: int,
        | 0 <= c < ws[w].len() ==> !white_space(#[trigger] ws[w][c]) by {
            if w > 0 {
                assert(ws[w] == words_from(s, k)[w - 1]);
            }
        }
    }
}

/// A run of alphanumeric characters ends at the first character that is not
/// alphanumeric, and everything before it is.
proof fn lemma_alphanumeric_run(src: Seq<char>, i: nat)
    ensures
        alphanumeric_run(src, i) matches Some(j) ==> {
            &&& i <= j < src.len()
            &&& !alphanumeric(src[j as int])
            &&& forall|k: int| i <= k < j ==> alphanumeric(#[trigger] src[k])
        },
    decreases src.len() - i,
{
    if i < src.len() && alphanumeric(src[i as int]) {
        lemma_alphanumeric_run(src, i + 1);
    }
}

/// An identifier (or keyword) takes every alphanumeric character that
/// follows its first one, digits included: the token it adds is the text up
/// to the first character that is neither a letter nor a digit (nor another
/// alphanumeric character), and the scan goes on from that character.
pub proof fn law_identifier_takes_all_alphanumerics(src: Seq<char>, st: LexState)
    requires
        st.start == st.cur,
        st.cur < src.len(),
        !at_end(src, st.cur as int),
        is_identifier_start(src[st.cur as int]),
        scan_token_step(src, st) is Continue,
    ensures
        ({
            let n = scan_token_step(src, st)->Continue_0;
            let text = slice_of(src, st.cur as int, n.cur as int);
            &&& st.cur < n.cur < src.len()
            &&& forall|k: int| st.cur < k < n.cur ==> alphanumeric(#[trigger] src[k])
            &&& !alphanumeric(src[n.cur as int])
            &&& !ascii_letter(src[n.cur as int])
            &&& !ascii_digit(src[n.cur as int])
            &&& n.tokens == st.tokens.push(
                TokenView { token_type: keyword_type(text), lexeme: text, line: st.line },
            )
        }),
{
    let c = src[st.cur as int];
    assert(single_char_type(c) is None);
    lemma_alphanumeric_run(src, st.cur + 1);
}

/// A step that, if it goes on, adds one token of type `t` whose text runs
/// from the token's start to `end`, on the current line, and moves the
/// cursor to `end`.
pub open spec fn step_adds(src: Seq<char>, st: LexState, r: LexStep, t: TokenType, end: nat) -> bool {
    r matches LexStep::Continue(n) ==> {
        &&& n.cur == end
        &&& n.line == st.line
        &&& n.tokens == st.tokens.push(
            TokenView { token_type: t, lexeme: slice_of(src, st.start as int, end as int), line: st.line },
        )
    }
}

/// The tokens of one or two characters: each of `( ) [ ] { } - + ; *` is a
/// token by itself; `!`, `=`, `<` and `>` are `!=`, `==`, `<=` and `>=`
/// when a `=` follows, and a token by themselves otherwise. Blanks give no
/// token, and a newline gives none but counts a line.
pub proof fn law_short_tokens(src: Seq<char>, st: LexState)
    requires
        st.start == st.cur,
        st.cur < src.len(),
        !at_end(src, st.cur as int),
    ensures
        ({
            let c = src[st.cur as int];
            let next = char_at(src, st.cur + 1int);
            &&& c == '(' ==> step_adds(src, st, scan_token_step(src, st), TokenType::LeftParen, st.cur + 1)
            &&& c == ')' ==> step_adds(src, st, scan_token_step(src, st), TokenType::RightParen, st.cur + 1)
            &&& c == '[' ==> step_adds(src, st, scan_token_step(src, st), TokenType::LeftBracket, st.cur + 1)
            &&& c == ']' ==> step_adds(src, st, scan_token_step(src, st), TokenType::RightBracket, st.cur + 1)
            &&& c == '{' ==> step_adds(src, st, scan_token_step(src, st), TokenType::LeftBrace, st.cur + 1)
            &&& c == '}' ==> step_adds(src, st, scan_token_step(src, st), TokenType::RightBrace, st.cur + 1)
            &&& c == '-' ==> step_adds(src, st, scan_token_step(src, st), TokenType::Minus, st.cur + 1)
            &&& c == '+' ==> step_adds(src, st, scan_token_step(src, st), TokenType::Plus, st.cur + 1)
            &&& c == ';' ==> step_adds(src, st, scan_token_step(src, st), TokenType::Semicolon, st.cur + 1)
            &&& c == '*' ==> step_adds(src, st, scan_token_step(src, st), TokenType::Star, st.cur + 1)
            &&& c == '!' && next == Some('=') ==> step_adds(src, st, scan_token_step(src, st), TokenType::BangEqual, st.cur + 2)
            &&& c == '!' && next != Some('=') ==> step_adds(src, st, scan_token_step(src, st), TokenType::Bang, st.cur + 1)
            &&& c == '=' && next == Some('=') ==> step_adds(src, st, scan_token_step(src, st), TokenType::EqualEqual, st.cur + 2)
            &&& c == '=' && next != Some('=') ==> step_adds(src, st, scan_token_step(src, st), TokenType::Equal, st.cur + 1)
            &&& c == '<' && next == Some('=') ==> step_adds(src, st, scan_token_step(src, st), TokenType::LessEqual, st.cur + 2)
            &&& c == '<' && next != Some('=') ==> step_adds(src, st, scan_token_step(src, st), TokenType::Less, st.cur + 1)
            &&& c == '>' && next == Some('=') ==> step_adds(src, st, scan_token_step(src, st), TokenType::GreaterEqual, st.cur + 2)
            &&& c == '>' && next != Some('=') ==> step_adds(src, st, scan_token_step(src, st), TokenType::Greater, st.cur + 1)
            &&& (c == ' ' || c == '\t' || c == '\r') ==> scan_token_step(src, st) == LexStep::Continue(
                LexState { cur: st.cur + 1, ..st },
            )
            &&& c == '\n' ==> scan_token_step(src, st) == LexStep::Continue(
                LexState { cur: st.cur + 1, line: st.line + 1, ..st },
            )
        }),
{
}

proof fn lemma_string_close_quotes(src: Seq<char>, i: nat)
    requires
        i <= src.len(),
    ensures
        string_close(src, i) matches Some(j) ==> forall|k: int| i <= k < j ==> #[trigger] src[k] != '"',
    decreases src.len() - i,
{
    if !at_end(src, i as int) && char_at(src, i as int) != Some('"') && i < src.len() {
        lemma_string_close_quotes(src, i + 1);
    }
}

/// A string runs from its opening quote to the next quote: the token's text
/// is what lies between them, with no quote in it, and the scan goes on after
/// the closing quote.
pub proof fn law_string_token(src: Seq<char>, st: LexState)
    requires
        st.start == st.cur,
        st.cur < src.len(),
        !at_end(src, st.cur as int),
        src[st.cur as int] == '"',
        scan_token_step(src, st) is Continue,
    ensures
        ({
            let n = scan_token_step(src, st)->Continue_0;
            &&& st.cur + 2 <= n.cur <= src.len()
            &&& src[n.cur - 1] == '"'
            &&& forall|k: int| st.cur < k < n.cur - 1 ==> #[trigger] src[k] != '"'
            &&& n.line == st.line
            &&& n.tokens == st.tokens.push(
                TokenView {
                    token_type: TokenType::String,
                    lexeme: slice_of(src, st.cur + 1int, n.cur - 1int),
                    line: st.line,
                },
            )
        }),
{
    lemma_string_close(src, st.cur + 1);
    lemma_string_close_quotes(src, st.cur + 1);
    lemma_chars_within_bytes(src);
}

proof fn lemma_digit_runs(src: Seq<char>, i: nat)
    ensures
        nonzero_digit_run(src, i) matches Some(j) ==> {
            &&& i <= j < src.len()
            &&& !(numeric(src[j as int]) && src[j as int] != '0')
            &&& forall|k: int| i <= k < j ==> numeric(#[trigger] src[k]) && src[k] != '0'
        },
        numeric_run(src, i) matches Some(j) ==> {
            &&& i <= j < src.len()
            &&& !numeric(src[j as int])
            &&& forall|k: int| i <= k < j ==> numeric(#[trigger] src[k])
        },
    decreases src.len() - i,
{
    if i < src.len() {
        lemma_digit_runs(src, i + 1);
    }
}

/// A number starts at a digit and takes the numeric characters after it up
/// to the first `0` (a `0` after the first digit ends the number), then,
/// where a `.` comes next, the `.` and every numeric character after it. The
/// token's text is all of that, and the scan goes on from the first character
/// the number does not take.
pub proof fn law_number_token(src: Seq<char>, st: LexState)
    requires
        st.start == st.cur,
        st.cur < src.len(),
        !at_end(src, st.cur as int),
        ascii_digit(src[st.cur as int]),
        scan_token_step(src, st) is Continue,
    ensures
        ({
            let n = scan_token_step(src, st)->Continue_0;
            &&& st.cur < n.cur < src.len()
            &&& n.line == st.line
            &&& n.tokens == st.tokens.push(
                TokenView {
                    token_type: TokenType::Number,
                    lexeme: slice_of(src, st.cur as int, n.cur as int),
                    line: st.line,
                },
            )
            &&& {
                ||| {
                    &&& forall|k: int|
                        st.cur < k < n.cur ==> numeric(#[trigger] src[k]) && src[k] != '0'
                    &&& !(numeric(src[n.cur as int]) && src[n.cur as int] != '0')
                    &&& src[n.cur as int] != '.'
                }
                ||| exists|d: int|
                    #![trigger src[d]]
                    {
                        &&& st.cur < d < n.cur
                        &&& src[d] == '.'
                        &&& forall|k: int|
                            st.cur < k < d ==> numeric(#[trigger] src[k]) && src[k] != '0'
                        &&& forall|k: int| d < k < n.cur ==> numeric(#[trigger] src[k])
                        &&& !numeric(src[n.cur as int])
                    }
            }
        }),
{
    let c = src[st.cur as int];
    assert(single_char_type(c) is None);
    lemma_digit_runs(src, st.cur + 1);
    if let Some(i) = nonzero_digit_run(src, st.cur + 1) {
        if src[i as int] == '.' {
            lemma_digit_runs(src, i + 1);
            assert(src[i as int] == '.');
        }
    }
}

/// The reserved words are scanned as their own token types, and every other
/// word as an identifier.
pub proof fn law_keywords(s: Seq<char>)
    ensures
        keyword_type("and"@) == TokenType::And,
        keyword_type("class"@) == TokenType::Class,
        keyword_type("else"@) == TokenType::Else,
        keyword_type("false"@) == TokenType::False,
        keyword_type("for"@) == TokenType::For,
        keyword_type("fun"@) == TokenType::Fun,
        keyword_type("if"@) == TokenType::If,
        keyword_type("nil"@) == TokenType::Nil,
        keyword_type("or"@) == TokenType::Or,
        keyword_type("print"@) == TokenType::Print,
        keyword_type("return"@) == TokenType::Return,
        keyword_type("super"@) == TokenType::Super,
        keyword_type("this"@) == TokenType::This,
        keyword_type("true"@) == TokenType::True,
        keyword_type("var"@) == TokenType::Var,
        keyword_type("while"@) == TokenType::While,
        s != "and"@ && s != "class"@ && s != "else"@ && s != "false"@ && s != "for"@ && s != "fun"@ && s != "if"@ && s != "nil"@ && s != "or"@ && s != "print"@ && s != "return"@ && s != "super"@ && s != "this"@ && s != "true"@ && s != "var"@ && s != "while"@ ==> keyword_type(s) == TokenType::Identifier,
{
    reveal_strlit("and");
    reveal_strlit("class");
    reveal_strlit("else");
    reveal_strlit("false");
    reveal_strlit("for");
    reveal_strlit("fun");
    reveal_strlit("if");
    reveal_strlit("nil");
    reveal_strlit("or");
    reveal_strlit("print");
    reveal_strlit("return");
    reveal_strlit("super");
    reveal_strlit("this");
    reveal_strlit("true");
    reveal_strlit("var");
    reveal_strlit("while");
    assert("class"@.len() != "and"@.len());
    assert("else"@.len() != "and"@.len());
    assert("else"@.len() != "class"@.len());
    assert("false"@.len() != "and"@.len());
    assert("false"@[0] != "class"@[0]);
    assert("false"@.len() != "else"@.len());
    assert("for"@[0] != "and"@[0]);
    assert("for"@.len() != "class"@.len());
    assert("for"@.len() != "else"@.len());
    assert("for"@.len() != "false"@.len());
    assert("fun"@[0] != "and"@[0]);
    assert("fun"@.len() != "class"@.len());
    assert("fun"@.len() != "else"@.len());
    assert("fun"@.len() != "false"@.len());
    assert("fun"@[1] != "for"@[1]);
    assert("if"@.len() != "and"@.len());
    assert("if"@.len() != "class"@.len());
    assert("if"@.len() != "else"@.len());
    assert("if"@.len() != "false"@.len());
    assert("if"@.len() != "for"@.len());
    assert("if"@.len() != "fun"@.len());
    assert("nil"@[0] != "and"@[0]);
    assert("nil"@.len() != "class"@.len());
    assert("nil"@.len() != "else"@.len());
    assert("nil"@.len() != "false"@.len());
    assert("nil"@[0] != "for"@[0]);
    assert("nil"@[0] != "fun"@[0]);
    assert("nil"@.len() != "if"@.len());
    assert("or"@.len() != "and"@.len());
    assert("or"@.len() != "class"@.len());
    assert("or"@.len() != "else"@.len());
    assert("or"@.len() != "false"@.len());
    assert("or"@.len() != "for"@.len());
    assert("or"@.len() != "fun"@.len());
    assert("or"@[0] != "if"@[0]);
    assert("or"@.len() != "nil"@.len());
    assert("print"@.len() != "and"@.len());
    assert("print"@[0] != "class"@[0]);
    assert("print"@.len() != "else"@.len());
    assert("print"@[0] != "false"@[0]);
    assert("print"@.len() != "for"@.len());
    assert("print"@.len() != "fun"@.len());
    assert("print"@.len() != "if"@.len());
    assert("print"@.len() != "nil"@.len());
    assert("print"@.len() != "or"@.len());
    assert("return"@.len() != "and"@.len());
    assert("return"@.len() != "class"@.len());
    assert("return"@.len() != "else"@.len());
    assert("return"@.len() != "false"@.len());
    assert("return"@.len() != "for"@.len());
    assert("return"@.len() != "fun"@.len());
    assert("return"@.len() != "if"@.len());
    assert("return"@.len() != "nil"@.len());
    assert("return"@.len() != "or"@.len());
    assert("return"@.len() != "print"@.len());
    assert("super"@.len() != "and"@.len());
    assert("super"@[0] != "class"@[0]);
    assert("super"@.len() != "else"@.len());
    assert("super"@[0] != "false"@[0]);
    assert("super"@.len() != "for"@.len());
    assert("super"@.len() != "fun"@.len());
    assert("super"@.len() != "if"@.len());
    assert("super"@.len() != "nil"@.len());
    assert("super"@.len() != "or"@.len());
    assert("super"@[0] != "print"@[0]);
    assert("super"@.len() != "return"@.len());
    assert("this"@.len() != "and"@.len());
    assert("this"@.len() != "class"@.len());
    assert("this"@[0] != "else"@[0]);
    assert("this"@.len() != "false"@.len());
    assert("this"@.len() != "for"@.len());
    assert("this"@.len() != "fun"@.len());
    assert("this"@.len() != "if"@.len());
    assert("this"@.len() != "nil"@.len());
    assert("this"@.len() != "or"@.len());
    assert("this"@.len() != "print"@.len());
    assert("this"@.len() != "return"@.len());
    assert("this"@.len() != "super"@.len());
    assert("true"@.len() != "and"@.len());
    assert("true"@.len() != "class"@.len());
    assert("true"@[0] != "else"@[0]);
    assert("true"@.len() != "false"@.len());
    assert("true"@.len() != "for"@.len());
    assert("true"@.len() != "fun"@.len());
    assert("true"@.len() != "if"@.len());
    assert("true"@.len() != "nil"@.len());
    assert("true"@.len() != "or"@.len());
    assert("true"@.len() != "print"@.len());
    assert("true"@.len() != "return"@.len());
    assert("true"@.len() != "super"@.len());
    assert("true"@[1] != "this"@[1]);
    assert("var"@[0] != "and"@[0]);
    assert("var"@.len() != "class"@.len());
    assert("var"@.len() != "else"@.len());
    assert("var"@.len() != "false"@.len());
    assert("var"@[0] != "for"@[0]);
    assert("var"@[0] != "fun"@[0]);
    assert("var"@.len() != "if"@.len());
    assert("var"@[0] != "nil"@[0]);
    assert("var"@.len() != "or"@.len());
    assert("var"@.len() != "print"@.len());
    assert("var"@.len() != "return"@.len());
    assert("var"@.len() != "super"@.len());
    assert("var"@.len() != "this"@.len());
    assert("var"@.len() != "true"@.len());
    assert("while"@.len() != "and"@.len());
    assert("while"@[0] != "class"@[0]);
    assert("while"@.len() != "else"@.len());
    assert("while"@[0] != "false"@[0]);
    assert("while"@.len() != "for"@.len());
    assert("while"@.len() != "fun"@.len());
    assert("while"@.len() != "if"@.len());
    assert("while"@.len() != "nil"@.len());
    assert("while"@.len() != "or"@.len());
    assert("while"@[0] != "print"@[0]);
    assert("while"@.len() != "return"@.len());
    assert("while"@[0] != "super"@[0]);
    assert("while"@.len() != "this"@.len());
    assert("while"@.len() != "true"@.len());
    assert("while"@.len() != "var"@.len());
}

} // verus!

