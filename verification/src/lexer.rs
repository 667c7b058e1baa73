use vstd::prelude::*;
use crate::pos::{Pos, pos_at, line_of, col_of, lemma_pos_bounds};
use crate::diag::{Error, ErrorV, line_end_from, lemma_line_end_bounds};

verus! {

/// What a token is: its class alone; the text is recovered by slicing
/// the source at the token's position.
#[derive(Debug, Clone, Copy, PartialEq, Eq, Structural)]
pub enum TokenType {
    Error,
    Newline,
    Id,
    Int,
    Hex,
    Binary,
    LBracket,
    RBracket,
    Dot,
    Comma,
    Colon,
}

/// A token: class, start position, and length in characters.
/// Tokens own no text.
#[derive(Debug, Clone, Copy, PartialEq, Eq, Structural)]
pub struct Token {
    pub token_type: TokenType,
    pub pos: Pos,
    pub length: usize,
}

impl Token {
    /// The token lies inside `text` and its position describes its start.
    pub open spec fn wf(self, text: Seq<char>) -> bool {
        &&& self.pos.wf(text)
        &&& self.pos.index + self.length <= text.len()
        &&& 1 <= self.length
    }

    /// The characters of `text` that this token spans.
    pub open spec fn text_of(self, text: Seq<char>) -> Seq<char> {
        text.subrange(self.pos.index as int, self.pos.index + self.length)
    }

    /// Slice of `text` that the token spans.
    pub fn value<'a>(&self, text: &'a str) -> (r: &'a str)
        requires
            self.pos.index + self.length <= text@.len(),
            text@.len() <= usize::MAX,
        ensures
            r@ == self.text_of(text@),
    {
        self.pos.value(text, self.length)
    }
}

/// Blank characters that are skipped between tokens (newline is not one:
/// it is a token of its own).
pub open spec fn is_blank(c: char) -> bool {
    c == ' ' || c == '\t' || c == '\r'
}

pub open spec fn is_ident_start(c: char) -> bool {
    ('a' <= c && c <= 'z') || ('A' <= c && c <= 'Z') || c == '_'
}

pub open spec fn is_ident_char(c: char) -> bool {
    is_ident_start(c) || is_digit(c)
}

pub open spec fn is_digit(c: char) -> bool {
    '0' <= c && c <= '9'
}

pub open spec fn is_hex_digit(c: char) -> bool {
    is_digit(c) || ('a' <= c && c <= 'f') || ('A' <= c && c <= 'F')
}

pub open spec fn is_bin_digit(c: char) -> bool {
    c == '0' || c == '1'
}

/// Characters that form a one-character token.
pub open spec fn is_single(c: char) -> bool {
    c == '[' || c == ']' || c == '.' || c == ',' || c == ':'
}

/// A character at which some token begins; anything else is reported
/// as an unexpected character.
pub open spec fn starts_token(c: char) -> bool {
    c == '\n' || is_ident_start(c) || is_digit(c) || is_single(c)
}

/// End of the identifier run that begins before offset `i`.
pub open spec fn scan_ident(text: Seq<char>, i: int) -> int
    decreases text.len() - i,
{
    if i < text.len() && is_ident_char(text[i]) {
        scan_ident(text, i + 1)
    } else {
        i
    }
}

/// End of the decimal-digit run that begins before offset `i`.
pub open spec fn scan_digits(text: Seq<char>, i: int) -> int
    decreases text.len() - i,
{
    if i < text.len() && is_digit(text[i]) {
        scan_digits(text, i + 1)
    } else {
        i
    }
}

/// End of the hex-digit run that begins at offset `i`.
pub open spec fn scan_hex(text: Seq<char>, i: int) -> int
    decreases text.len() - i,
{
    if i < text.len() && is_hex_digit(text[i]) {
        scan_hex(text, i + 1)
    } else {
        i
    }
}

/// End of the binary-digit run that begins at offset `i`.
pub open spec fn scan_bin(text: Seq<char>, i: int) -> int
    decreases text.len() - i,
{
    if i < text.len() && is_bin_digit(text[i]) {
        scan_bin(text, i + 1)
    } else {
        i
    }
}

/// Offset of the next character that neither blanks nor a `;` comment
/// swallow: where the next token (or the end of the text) begins.
pub open spec fn skip_trivia(text: Seq<char>, i: int) -> int
    decreases text.len() - i,
{
    if i < text.len() && is_blank(text[i]) {
        skip_trivia(text, i + 1)
    } else if i < text.len() && text[i] == ';' {
        line_end_from(text, i + 1)
    } else {
        i
    }
}

pub proof fn lemma_scan_bounds(text: Seq<char>, i: int)
    requires
        0 <= i <= text.len(),
    ensures
        i <= scan_ident(text, i) <= text.len(),
        i <= scan_digits(text, i) <= text.len(),
        i <= scan_hex(text, i) <= text.len(),
        i <= scan_bin(text, i) <= text.len(),
    decreases text.len() - i,
{
    if i < text.len() {
        lemma_scan_bounds(text, i + 1);
    }
}

pub proof fn lemma_skip_trivia_bounds(text: Seq<char>, i: int)
    requires
        0 <= i <= text.len(),
    ensures
        i <= skip_trivia(text, i) <= text.len(),
    decreases text.len() - i,
{
    if i < text.len() && is_blank(text[i]) {
        lemma_skip_trivia_bounds(text, i + 1);
    } else if i < text.len() && text[i] == ';' {
        lemma_line_end_bounds(text, i + 1);
    }
}

/// Class of the token that begins at offset `j` (just past trivia).
pub open spec fn token_kind(text: Seq<char>, j: int) -> TokenType {
    let c = text[j];
    if c == '\n' {
        TokenType::Newline
    } else if is_ident_start(c) {
        TokenType::Id
    } else if '1' <= c && c <= '9' {
        TokenType::Int
    } else if c == '0' {
        if j + 1 < text.len() && text[j + 1] == 'x' {
            if scan_hex(text, j + 2) == j + 2 {
                TokenType::Error
            } else {
                TokenType::Hex
            }
        } else if j + 1 < text.len() && text[j + 1] == 'b' {
            if scan_bin(text, j + 2) == j + 2 {
                TokenType::Error
            } else {
                TokenType::Binary
            }
        } else {
            TokenType::Int
        }
    } else if c == '[' {
        TokenType::LBracket
    } else if c == ']' {
        TokenType::RBracket
    } else if c == '.' {
        TokenType::Dot
    } else if c == ',' {
        TokenType::Comma
    } else if c == ':' {
        TokenType::Colon
    } else {
        TokenType::Error
    }
}

/// Offset just past the token that begins at offset `j`.
pub open spec fn token_end(text: Seq<char>, j: int) -> int {
    let c = text[j];
    if is_ident_start(c) {
        scan_ident(text, j + 1)
    } else if '1' <= c && c <= '9' {
        scan_digits(text, j + 1)
    } else if c == '0' {
        if j + 1 < text.len() && text[j + 1] == 'x' {
            scan_hex(text, j + 2)
        } else if j + 1 < text.len() && text[j + 1] == 'b' {
            scan_bin(text, j + 2)
        } else {
            j + 1
        }
    } else {
        j + 1
    }
}

/// The diagnostics that lexing the token at offset `j` leaves behind:
/// one for an unexpected character, one for a malformed `0x`/`0b`
/// literal, none otherwise.
pub open spec fn token_diags(text: Seq<char>, j: int) -> Seq<ErrorV> {
    let c = text[j];
    if !starts_token(c) {
        seq![ErrorV { message: "unexpected char"@, pos: pos_at(text, j) }]
    } else if c == '0' && j + 1 < text.len() && text[j + 1] == 'x' && scan_hex(text, j + 2) == j
        + 2 {
        seq![ErrorV { message: "malformed literal"@, pos: pos_at(text, j) }]
    } else if c == '0' && j + 1 < text.len() && text[j + 1] == 'b' && scan_bin(text, j + 2) == j
        + 2 {
        seq![ErrorV { message: "malformed literal"@, pos: pos_at(text, j) }]
    } else {
        Seq::empty()
    }
}

/// The token that begins at offset `j`, a place where trivia has been
/// skipped and some character remains.
pub open spec fn spec_token_at(text: Seq<char>, j: int) -> Token {
    Token {
        token_type: token_kind(text, j),
        pos: pos_at(text, j),
        length: (token_end(text, j) - j) as usize,
    }
}

/// What one `next_token` call from offset `i` returns.
pub open spec fn spec_next_token(text: Seq<char>, i: int) -> Option<Token> {
    let j = skip_trivia(text, i);
    if j == text.len() {
        None
    } else {
        Some(spec_token_at(text, j))
    }
}

/// Where the cursor stands after one `next_token` call from offset `i`.
pub open spec fn spec_next_index(text: Seq<char>, i: int) -> int {
    let j = skip_trivia(text, i);
    if j == text.len() {
        j
    } else {
        token_end(text, j)
    }
}

/// The diagnostics one `next_token` call from offset `i` records.
pub open spec fn spec_next_diags(text: Seq<char>, i: int) -> Seq<ErrorV> {
    let j = skip_trivia(text, i);
    if j == text.len() {
        Seq::empty()
    } else {
        token_diags(text, j)
    }
}

/// A `next_token` call either stands at the end or moves the cursor
/// strictly forward, and never past the end.
pub proof fn lemma_next_progress(text: Seq<char>, i: int)
    requires
        0 <= i <= text.len(),
    ensures
        i <= spec_next_index(text, i) <= text.len(),
        spec_next_token(text, i) is Some ==> i < spec_next_index(text, i),
{
    lemma_skip_trivia_bounds(text, i);
    let j = skip_trivia(text, i);
    if j < text.len() {
        lemma_scan_bounds(text, j + 1);
        if j + 2 <= text.len() {
            lemma_scan_bounds(text, j + 2);
        }
    }
}

/// A returned token lies inside the text it was read from.
pub proof fn lemma_next_token_wf(text: Seq<char>, i: int)
    requires
        0 <= i <= text.len(),
        text.len() < usize::MAX,
    ensures
        spec_next_token(text, i) is Some ==> spec_next_token(text, i)->Some_0.wf(text),
{
    lemma_skip_trivia_bounds(text, i);
    let j = skip_trivia(text, i);
    if j < text.len() {
        lemma_scan_bounds(text, j + 1);
        if j + 2 <= text.len() {
            lemma_scan_bounds(text, j + 2);
        }
        lemma_pos_bounds(text, j);
    }
}

/// The token stream of `text` from offset `i` on.
pub open spec fn spec_tokens_from(text: Seq<char>, i: int) -> Seq<Token>
    decreases text.len() - i,
    when 0 <= i <= text.len()
    via spec_tokens_from_decreases
{
    match spec_next_token(text, i) {
        Option::None => Seq::empty(),
        Option::Some(t) => seq![t] + spec_tokens_from(text, spec_next_index(text, i)),
    }
}

#[via_fn]
proof fn spec_tokens_from_decreases(text: Seq<char>, i: int) {
    lemma_next_progress(text, i);
}

/// The diagnostics lexing all of `text` from offset `i` records.
pub open spec fn spec_lex_diags_from(text: Seq<char>, i: int) -> Seq<ErrorV>
    decreases text.len() - i,
    when 0 <= i <= text.len()
    via spec_lex_diags_from_decreases
{
    match spec_next_token(text, i) {
        Option::None => Seq::empty(),
        Option::Some(t) => spec_next_diags(text, i) + spec_lex_diags_from(
            text,
            spec_next_index(text, i),
        ),
    }
}

#[via_fn]
proof fn spec_lex_diags_from_decreases(text: Seq<char>, i: int) {
    lemma_next_progress(text, i);
}

/// The whole token stream of `text`.
pub open spec fn spec_tokens(text: Seq<char>) -> Seq<Token> {
    spec_tokens_from(text, 0)
}

/// All diagnostics the lexer records on `text`.
pub open spec fn spec_lex_diags(text: Seq<char>) -> Seq<ErrorV> {
    spec_lex_diags_from(text, 0)
}

/// The characters a scan run accepts all lie in its class.
pub proof fn lemma_scan_chars(text: Seq<char>, i: int)
    requires
        0 <= i <= text.len(),
    ensures
        forall|j: int| i <= j < scan_ident(text, i) ==> is_ident_char(#[trigger] text[j]),
        forall|j: int| i <= j < scan_digits(text, i) ==> is_digit(#[trigger] text[j]),
        forall|j: int| i <= j < scan_hex(text, i) ==> is_hex_digit(#[trigger] text[j]),
        forall|j: int| i <= j < scan_bin(text, i) ==> is_bin_digit(#[trigger] text[j]),
    decreases text.len() - i,
{
    lemma_scan_bounds(text, i);
    if i < text.len() {
        lemma_scan_chars(text, i + 1);
        lemma_scan_bounds(text, i + 1);
    }
}

/// Every token of the stream is well formed and is exactly the token
/// that lexing classifies at the token's own position.
pub proof fn lemma_tokens_shape(text: Seq<char>, i: int)
    requires
        0 <= i <= text.len(),
        text.len() < usize::MAX,
    ensures
        forall|k: int|
            0 <= k < spec_tokens_from(text, i).len() ==> {
                let t = #[trigger] spec_tokens_from(text, i)[k];
                &&& t.wf(text)
                &&& t.pos.index < text.len()
                &&& t == spec_token_at(text, t.pos.index as int)
                &&& t.pos.index + t.length == token_end(text, t.pos.index as int)
            },
    decreases text.len() - i,
{
    lemma_next_progress(text, i);
    lemma_next_token_wf(text, i);
    lemma_skip_trivia_bounds(text, i);
    let j = skip_trivia(text, i);
    if spec_next_token(text, i) is Some {
        lemma_scan_bounds(text, j + 1);
        if j + 2 <= text.len() {
            lemma_scan_bounds(text, j + 2);
        }
        lemma_pos_bounds(text, j);
        lemma_tokens_shape(text, spec_next_index(text, i));
        let t0 = spec_token_at(text, j);
        assert(t0.pos.index == j);
        assert(spec_tokens_from(text, i)[0] == t0);
        assert(forall|k: int|
            1 <= k < spec_tokens_from(text, i).len() ==> #[trigger] spec_tokens_from(text, i)[k]
                == spec_tokens_from(text, spec_next_index(text, i))[k - 1]);
    }
}

/// The characters of an integer-literal token are digits of its base;
/// a hex or binary literal begins with `0x` or `0b` and has at least
/// one digit after it.
pub proof fn lemma_token_literal_chars(text: Seq<char>, j: int)
    requires
        0 <= j < text.len(),
    ensures
        token_kind(text, j) == TokenType::Int ==> forall|k: int|
            j <= k < token_end(text, j) ==> is_digit(#[trigger] text[k]),
        token_kind(text, j) == TokenType::Hex ==> token_end(text, j) >= j + 3 && (forall|k: int|
            j + 2 <= k < token_end(text, j) ==> is_hex_digit(#[trigger] text[k])),
        token_kind(text, j) == TokenType::Binary ==> token_end(text, j) >= j + 3 && (forall|
            k: int,
        |
            j + 2 <= k < token_end(text, j) ==> is_bin_digit(#[trigger] text[k])),
{
    lemma_scan_chars(text, j + 1);
    lemma_scan_bounds(text, j + 1);
    if j + 2 <= text.len() {
        lemma_scan_chars(text, j + 2);
        lemma_scan_bounds(text, j + 2);
    }
}


/// A token classified as an error always leaves a diagnostic behind.
pub proof fn lemma_error_token_has_diag(text: Seq<char>, j: int)
    requires
        0 <= j < text.len(),
    ensures
        token_kind(text, j) == TokenType::Error ==> token_diags(text, j).len() >= 1,
{
}

/// When lexing a text leaves no diagnostics, no token of its stream is
/// an error token.
pub proof fn lemma_lex_clean_from(text: Seq<char>, i: int)
    requires
        0 <= i <= text.len(),
        spec_lex_diags_from(text, i).len() == 0,
    ensures
        forall|k: int|
            0 <= k < spec_tokens_from(text, i).len() ==> (#[trigger] spec_tokens_from(
                text,
                i,
            )[k]).token_type != TokenType::Error,
    decreases text.len() - i,
{
    lemma_next_progress(text, i);
    lemma_skip_trivia_bounds(text, i);
    let j = skip_trivia(text, i);
    if spec_next_token(text, i) is Some {
        lemma_error_token_has_diag(text, j);
        lemma_lex_clean_from(text, spec_next_index(text, i));
        assert(forall|k: int|
            1 <= k < spec_tokens_from(text, i).len() ==> #[trigger] spec_tokens_from(text, i)[k]
                == spec_tokens_from(text, spec_next_index(text, i))[k - 1]);
    }
}


/// Law: positions never run backwards — along the token stream, each
/// token begins at or after where lexing started, and strictly after
/// the token before it.
pub proof fn lemma_tokens_ordered(text: Seq<char>, i: int)
    requires
        0 <= i <= text.len(),
        text.len() < usize::MAX,
    ensures
        forall|k: int|
            0 <= k < spec_tokens_from(text, i).len() ==> (#[trigger] spec_tokens_from(
                text,
                i,
            )[k]).pos.index >= i,
        forall|k1: int, k2: int|
            0 <= k1 < k2 < spec_tokens_from(text, i).len() ==> (#[trigger] spec_tokens_from(
                text,
                i,
            )[k1]).pos.index < (#[trigger] spec_tokens_from(text, i)[k2]).pos.index,
    decreases text.len() - i,
{
    lemma_next_progress(text, i);
    lemma_skip_trivia_bounds(text, i);
    let j = skip_trivia(text, i);
    if spec_next_token(text, i) is Some {
        lemma_scan_bounds(text, j + 1);
        if j + 2 <= text.len() {
            lemma_scan_bounds(text, j + 2);
        }
        let nxt = spec_next_index(text, i);
        lemma_tokens_ordered(text, nxt);
        assert(spec_tokens_from(text, i)[0].pos.index == j);
        assert(forall|k: int|
            1 <= k < spec_tokens_from(text, i).len() ==> #[trigger] spec_tokens_from(text, i)[k]
                == spec_tokens_from(text, nxt)[k - 1]);
        assert(j < nxt);
    }
}


/// No character before the end of a comment run is a newline.
pub proof fn lemma_line_end_chars(text: Seq<char>, i: int)
    requires
        0 <= i <= text.len(),
    ensures
        forall|r: int| i <= r < line_end_from(text, i) ==> text[r] != '\n',
    decreases text.len() - i,
{
    lemma_line_end_bounds(text, i);
    if i < text.len() && text[i] != '\n' {
        lemma_line_end_chars(text, i + 1);
    }
}

/// A character the lexer skips is a blank, a semicolon, or comment
/// text: preceded on its own line by a semicolon.
pub proof fn lemma_trivia_chars(text: Seq<char>, i: int, p: int)
    requires
        0 <= i <= p < skip_trivia(text, i),
        p < text.len(),
    ensures
        is_blank(text[p]) || text[p] == ';' || exists|q: int|
            i <= q < p && text[q] == ';' && (forall|r: int| q < r <= p ==> text[r] != '\n'),
    decreases text.len() - i,
{
    if i < text.len() && is_blank(text[i]) {
        if p > i {
            lemma_trivia_chars(text, i + 1, p);
            if !is_blank(text[p]) && text[p] != ';' {
                let q = choose|q: int|
                    i + 1 <= q < p && text[q] == ';' && (forall|r: int|
                        q < r <= p ==> text[r] != '\n');
                assert(i <= q < p && text[q] == ';' && (forall|r: int|
                    q < r <= p ==> text[r] != '\n'));
            }
        }
    } else if i < text.len() && text[i] == ';' {
        if p > i {
            lemma_line_end_chars(text, i + 1);
            assert(i <= i < p && text[i] == ';' && (forall|r: int|
                i < r <= p ==> text[r] != '\n'));
        }
    }
}

/// Every character from the cursor on lies inside some token of the
/// stream, or is skipped trivia: a blank, a semicolon, or comment text
/// behind a semicolon on its line.
pub proof fn lemma_char_covered(text: Seq<char>, i: int, p: int)
    requires
        0 <= i <= p < text.len(),
        text.len() < usize::MAX,
    ensures
        (exists|k: int|
            0 <= k < spec_tokens_from(text, i).len() && (#[trigger] spec_tokens_from(
                text,
                i,
            )[k]).pos.index <= p < spec_tokens_from(text, i)[k].pos.index + spec_tokens_from(
                text,
                i,
            )[k].length) || is_blank(text[p]) || text[p] == ';' || exists|q: int|
            0 <= q < p && text[q] == ';' && (forall|r: int| q < r <= p ==> text[r] != '\n'),
    decreases text.len() - i,
{
    lemma_skip_trivia_bounds(text, i);
    lemma_next_progress(text, i);
    lemma_tokens_shape(text, i);
    let j = skip_trivia(text, i);
    if p < j {
        lemma_trivia_chars(text, i, p);
    } else {
        let toks = spec_tokens_from(text, i);
        let end = token_end(text, j);
        assert(toks[0] == spec_token_at(text, j));
        assert(toks[0].pos.index == j);
        assert(toks[0].pos.index + toks[0].length == end);
        if p < end {
            assert(toks[0].pos.index <= p < toks[0].pos.index + toks[0].length);
        } else {
            lemma_char_covered(text, end, p);
            let tail = spec_tokens_from(text, end);
            assert(forall|k: int| 1 <= k < toks.len() ==> #[trigger] toks[k] == tail[k - 1]);
            if exists|k: int|
                0 <= k < tail.len() && (#[trigger] tail[k]).pos.index <= p < tail[k].pos.index
                    + tail[k].length {
                let k = choose|k: int|
                    0 <= k < tail.len() && (#[trigger] tail[k]).pos.index <= p < tail[k].pos.index
                        + tail[k].length;
                assert(toks[k + 1] == tail[k]);
                assert(0 <= k + 1 < toks.len() && toks[k + 1].pos.index <= p < toks[k
                    + 1].pos.index + toks[k + 1].length);
            }
        }
    }
}

fn blank(c: char) -> (r: bool)
    ensures
        r == is_blank(c),
{
    c == ' ' || c == '\t' || c == '\r'
}

fn ident_start(c: char) -> (r: bool)
    ensures
        r == is_ident_start(c),
{
    ('a' <= c && c <= 'z') || ('A' <= c && c <= 'Z') || c == '_'
}

fn ident_char(c: char) -> (r: bool)
    ensures
        r == is_ident_char(c),
{
    ident_start(c) || digit(c)
}

fn digit(c: char) -> (r: bool)
    ensures
        r == is_digit(c),
{
    '0' <= c && c <= '9'
}

fn hex_digit(c: char) -> (r: bool)
    ensures
        r == is_hex_digit(c),
{
    digit(c) || ('a' <= c && c <= 'f') || ('A' <= c && c <= 'F')
}

fn bin_digit(c: char) -> (r: bool)
    ensures
        r == is_bin_digit(c),
{
    c == '0' || c == '1'
}

/// The lexer: a cursor over the source text. The cursor is a character
/// offset plus the line and column numbers that describe it; diagnostics
/// for bad characters and malformed literals pile up in `errors`.
pub struct Lexer<'a> {
    pub text: &'a str,
    pub len: usize,
    pub index: usize,
    pub line: usize,
    pub col: usize,
    pub errors: Vec<Error>,
}

impl<'a> Lexer<'a> {
    /// The cursor lies inside the text and line/column agree with it;
    /// every recorded diagnostic points into the text.
    pub open spec fn wf(self) -> bool {
        &&& self.len == self.text@.len()
        &&& self.text@.len() < usize::MAX
        &&& self.index <= self.len
        &&& self.line == line_of(self.text@, self.index as int)
        &&& self.col == col_of(self.text@, self.index as int)
        &&& forall|k: int|
            0 <= k < self.errors.len() ==> (#[trigger] self.errors[k]).pos.wf(self.text@)
    }

    /// A fresh lexer at the start of `text` with no diagnostics.
    pub fn new(text: &'a str) -> (r: Lexer<'a>)
        requires
            text@.len() < usize::MAX,
        ensures
            r.wf(),
            r.text == text,
            r.index == 0,
            r.errors.deep_view() =~= Seq::<ErrorV>::empty(),
    {
        let len = text.unicode_len();
        Lexer { text, len, index: 0, line: 1, col: 1, errors: Vec::new() }
    }

    /// The recorded diagnostics, handed over when lexing is done.
    pub fn errors(self) -> (r: Vec<Error>)
        ensures
            r == self.errors,
    {
        self.errors
    }

    fn add_error(&mut self, message: &str, pos: Pos)
        requires
            old(self).wf(),
            pos.wf(old(self).text@),
        ensures
            final(self).wf(),
            final(self).text == old(self).text,
            final(self).len == old(self).len,
            final(self).index == old(self).index,
            final(self).line == old(self).line,
            final(self).col == old(self).col,
            final(self).errors.deep_view() =~= old(self).errors.deep_view().push(
                ErrorV { message: message@, pos },
            ),
    {
        let m = String::from_str(message);
        self.errors.push(Error { message: m, pos });
    }

    fn step(&mut self)
        requires
            old(self).wf(),
            old(self).index < old(self).len,
        ensures
            final(self).wf(),
            final(self).text == old(self).text,
            final(self).len == old(self).len,
            final(self).errors == old(self).errors,
            final(self).index == old(self).index + 1,
    {
        proof {
            lemma_pos_bounds(self.text@, self.index as int);
        }
        let c = self.text.get_char(self.index);
        if c == '\n' {
            self.line = self.line + 1;
            self.col = 1;
        } else {
            self.col = self.col + 1;
        }
        self.index = self.index + 1;
    }

    fn token(&self, token_type: TokenType, pos: Pos) -> (r: Option<Token>)
        requires
            pos.index <= self.index,
        ensures
            r == Some(Token { token_type, pos, length: (self.index - pos.index) as usize }),
    {
        Some(Token { token_type, length: self.index - pos.index, pos })
    }

    fn pos(&self) -> (p: Pos)
        requires
            self.wf(),
        ensures
            p == pos_at(self.text@, self.index as int),
    {
        Pos { index: self.index, line: self.line, col: self.col }
    }

    fn done(&self) -> (r: bool)
        requires
            self.index <= self.len,
        ensures
            r == (self.index == self.len),
    {
        self.index >= self.len
    }

    fn current(&self) -> (c: char)
        requires
            self.wf(),
            self.index < self.len,
        ensures
            c == self.text@[self.index as int],
    {
        self.text.get_char(self.index)
    }

    /// Skips blanks and comments, then returns the next token, or `None`
    /// at the end of the text. An unexpected character or a malformed
    /// `0x`/`0b` literal yields an `Error` token and records a diagnostic;
    /// lexing never aborts.
    pub fn next_token(&mut self) -> (r: Option<Token>)
        requires
            old(self).wf(),
        ensures
            final(self).wf(),
            final(self).text == old(self).text,
            final(self).len == old(self).len,
            r == spec_next_token(old(self).text@, old(self).index as int),
            final(self).index as int == spec_next_index(old(self).text@, old(self).index as int),
            final(self).errors.deep_view() =~= old(self).errors.deep_view() + spec_next_diags(
                old(self).text@,
                old(self).index as int,
            ),
            r is Some ==> r->Some_0.wf(old(self).text@),
    {
        let ghost text = self.text@;
        let ghost i0 = self.index as int;
        proof {
            lemma_next_progress(text, i0);
            lemma_next_token_wf(text, i0);
        }
        while !self.done() && (blank(self.current()) || self.current() == ';')
            invariant
                self.wf(),
                self.text == old(self).text,
                self.text@ == text,
                self.len == old(self).len,
                self.errors == old(self).errors,
                skip_trivia(text, i0) == skip_trivia(text, self.index as int),
            decreases self.len - self.index,
        {
            let c = self.current();
            if c == ';' {
                self.step();
                let ghost cstart = self.index as int;
                while !self.done() && self.current() != '\n'
                    invariant
                        self.wf(),
                        self.text == old(self).text,
                        self.text@ == text,
                        self.len == old(self).len,
                        self.errors == old(self).errors,
                        cstart <= self.index <= self.len,
                        line_end_from(text, cstart) == line_end_from(text, self.index as int),
                    decreases self.len - self.index,
                {
                    self.step();
                }
            } else {
                self.step();
            }
        }
        let ghost j = self.index as int;
        proof {
            assert(j == skip_trivia(text, i0));
        }
        if self.done() {
            return None;
        }
        let pos = self.pos();
        let c = self.current();
        proof {
            lemma_scan_bounds(text, j + 1);
            if j + 2 <= text.len() {
                lemma_scan_bounds(text, j + 2);
            }
            lemma_pos_bounds(text, j);
        }
        if c == '\n' {
            self.step();
            self.token(TokenType::Newline, pos)
        } else if ident_start(c) {
            self.step();
            while !self.done() && ident_char(self.current())
                invariant
                    self.wf(),
                    self.text == old(self).text,
                    self.text@ == text,
                    self.len == old(self).len,
                    self.errors == old(self).errors,
                    j + 1 <= self.index <= self.len,
                    scan_ident(text, j + 1) == scan_ident(text, self.index as int),
                decreases self.len - self.index,
            {
                self.step();
            }
            self.token(TokenType::Id, pos)
        } else if '1' <= c && c <= '9' {
            self.step();
            while !self.done() && digit(self.current())
                invariant
                    self.wf(),
                    self.text == old(self).text,
                    self.text@ == text,
                    self.len == old(self).len,
                    self.errors == old(self).errors,
                    j + 1 <= self.index <= self.len,
                    scan_digits(text, j + 1) == scan_digits(text, self.index as int),
                decreases self.len - self.index,
            {
                self.step();
            }
            self.token(TokenType::Int, pos)
        } else if c == '0' {
            self.step();
            if !self.done() && self.current() == 'x' {
                self.step();
                let digits_start = self.index;
                while !self.done() && hex_digit(self.current())
                    invariant
                        self.wf(),
                        self.text == old(self).text,
                        self.text@ == text,
                        self.len == old(self).len,
                        self.errors == old(self).errors,
                        j + 2 == digits_start,
                        digits_start <= self.index <= self.len,
                        scan_hex(text, j + 2) == scan_hex(text, self.index as int),
                    decreases self.len - self.index,
                {
                    self.step();
                }
                if self.index == digits_start {
                    self.add_error("malformed literal", pos);
                    self.token(TokenType::Error, pos)
                } else {
                    self.token(TokenType::Hex, pos)
                }
            } else if !self.done() && self.current() == 'b' {
                self.step();
                let digits_start = self.index;
                while !self.done() && bin_digit(self.current())
                    invariant
                        self.wf(),
                        self.text == old(self).text,
                        self.text@ == text,
                        self.len == old(self).len,
                        self.errors == old(self).errors,
                        j + 2 == digits_start,
                        digits_start <= self.index <= self.len,
                        scan_bin(text, j + 2) == scan_bin(text, self.index as int),
                    decreases self.len - self.index,
                {
                    self.step();
                }
                if self.index == digits_start {
                    self.add_error("malformed literal", pos);
                    self.token(TokenType::Error, pos)
                } else {
                    self.token(TokenType::Binary, pos)
                }
            } else {
                self.token(TokenType::Int, pos)
            }
        } else if c == '[' {
            self.step();
            self.token(TokenType::LBracket, pos)
        } else if c == ']' {
            self.step();
            self.token(TokenType::RBracket, pos)
        } else if c == '.' {
            self.step();
            self.token(TokenType::Dot, pos)
        } else if c == ',' {
            self.step();
            self.token(TokenType::Comma, pos)
        } else if c == ':' {
            self.step();
            self.token(TokenType::Colon, pos)
        } else {
            self.step();
            self.add_error("unexpected char", pos);
            self.token(TokenType::Error, pos)
        }
    }
}

} // verus!
