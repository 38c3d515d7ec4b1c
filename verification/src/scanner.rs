//! The scanner: turns raw source bytes into a lazy, restartable sequence of
//! tokens, tracking line numbers for diagnostics.
//!
//! Whitespace, line comments (`//…`) and block comments (`/*…*/`,
//! non-nesting) are skipped before each token; every consumed newline
//! increments the line counter. Tokens are spans into the source buffer:
//! punctuation with maximal munch (`=` vs `==`, `-` vs `-:`), decimal
//! integer literals, double-quoted string literals (span includes the
//! quotes), single-quoted one-character literals, and identifiers (ASCII
//! letters, digits and underscore, first not a digit) checked against the
//! fixed keyword set. The whole tokenization is stated by
//! `spec_next_token`, and `Scanner::next` returns exactly what it says.

use vstd::prelude::*;
use vstd::string::StringSliceAdditionalSpecFns;
use crate::err::ScannerError;
use crate::text::extend_str;

verus! {

/// The lexical kind of a token.
#[derive(Clone, Copy, Debug, PartialEq, Eq, Structural)]
pub enum TokenType {
    // Single character tokens
    LeftParen,
    RightParen,
    LeftBrace,
    RightBrace,
    RightBracket,
    LeftBracket,
    Plus,
    Star,
    Slash,
    Comma,
    Semicolon,
    // One or more character tokens
    Equal,
    EqualEqual,
    Less,
    LessEqual,
    Greater,
    GreaterEqual,
    Bang,
    BangEqual,
    Dot,
    DotDot,
    Minus,
    MinusColon,
    // Literals
    Number,
    String,
    Identifier,
    CharLit,
    // Keywords
    True,
    False,
    Struct,
    Enum,
    Char,
    Int,
    Nil,
    Typedef,
    Bind,
    Def,
    If,
    Print,
    Return,
    EOF,
}

/// A token: its kind, its span into the source buffer, and its line.
#[derive(Clone, Copy, Debug)]
pub struct Token {
    pub id: TokenType,
    pub start: usize,
    pub len: usize,
    pub line: usize,
}

impl Token {
    /// The token's lexeme, read back from the source it was scanned from.
    pub fn extract<'a>(&self, source: &'a [u8]) -> (r: &'a [u8])
        requires
            self.start + self.len <= source@.len(),
        ensures
            r@ == source@.subrange(self.start as int, self.start + self.len),
    {
        let n = source.len();
        &source[self.start..self.start + self.len]
    }
}

impl Default for Token {
    /// The placeholder token parsing starts from: an end-of-input marker
    /// with an empty span.
    fn default() -> (r: Self)
        ensures
            r.id == TokenType::EOF,
            r.start == 0,
            r.len == 0,
            r.line == 0,
    {
        Token { id: TokenType::EOF, start: 0, len: 0, line: 0 }
    }
}

/// ASCII decimal digit.
pub open spec fn spec_is_digit(c: u8) -> bool {
    48 <= c <= 57
}

/// ASCII letter or underscore: what may start an identifier.
pub open spec fn spec_is_alpha(c: u8) -> bool {
    (65 <= c <= 90) || (97 <= c <= 122) || c == 95
}

/// Letter, digit or underscore: what may continue an identifier.
pub open spec fn spec_is_alnum(c: u8) -> bool {
    spec_is_alpha(c) || spec_is_digit(c)
}

/// Letter, digit or underscore.
pub fn is_alpha_numer(c: u8) -> (r: bool)
    ensures
        r == spec_is_alnum(c),
{
    (65 <= c && c <= 90) || (97 <= c && c <= 122) || c == 95 || (48 <= c && c <= 57)
}

/// The token kind of an identifier lexeme: a keyword on exact match, else a
/// generic identifier.
pub open spec fn spec_keyword(lex: Seq<u8>) -> TokenType {
    if lex == "true".spec_bytes() {
        TokenType::True
    } else if lex == "false".spec_bytes() {
        TokenType::False
    } else if lex == "nil".spec_bytes() {
        TokenType::Nil
    } else if lex == "struct".spec_bytes() {
        TokenType::Struct
    } else if lex == "enum".spec_bytes() {
        TokenType::Enum
    } else if lex == "char".spec_bytes() {
        TokenType::Char
    } else if lex == "int".spec_bytes() {
        TokenType::Int
    } else if lex == "typedef".spec_bytes() {
        TokenType::Typedef
    } else if lex == "bind".spec_bytes() {
        TokenType::Bind
    } else if lex == "def".spec_bytes() {
        TokenType::Def
    } else if lex == "if".spec_bytes() {
        TokenType::If
    } else if lex == "print".spec_bytes() {
        TokenType::Print
    } else if lex == "return".spec_bytes() {
        TokenType::Return
    } else {
        TokenType::Identifier
    }
}

/// Position and line after skipping whitespace and comments, one byte at a
/// time.
pub open spec fn spec_skip_ws(src: Seq<u8>, pos: int, line: int) -> (int, int)
    decreases src.len() - pos, 0int,
{
    if pos < 0 || pos >= src.len() {
        (pos, line)
    } else {
        let c = src[pos];
        if c == 32 || c == 9 || c == 13 {
            spec_skip_ws(src, pos + 1, line)
        } else if c == 10 {
            spec_skip_ws(src, pos + 1, line + 1)
        } else if c == 47 && pos + 1 < src.len() && src[pos + 1] == 47 {
            spec_skip_line_comment(src, pos + 2, line)
        } else if c == 47 && pos + 1 < src.len() && src[pos + 1] == 42 {
            spec_skip_block_comment(src, pos + 2, line)
        } else {
            (pos, line)
        }
    }
}

/// Inside a line comment: skip to the next newline (left unconsumed).
pub open spec fn spec_skip_line_comment(src: Seq<u8>, pos: int, line: int) -> (int, int)
    decreases src.len() - pos, 1int,
{
    if pos < 0 || pos >= src.len() {
        (pos, line)
    } else if src[pos] == 10 {
        spec_skip_ws(src, pos, line)
    } else {
        spec_skip_line_comment(src, pos + 1, line)
    }
}

/// Inside a block comment: skip to past the closing `*/`, counting
/// newlines; an unterminated comment runs to the end of input.
pub open spec fn spec_skip_block_comment(src: Seq<u8>, pos: int, line: int) -> (int, int)
    decreases src.len() - pos, 1int,
{
    if pos < 0 || pos >= src.len() {
        (pos, line)
    } else if src[pos] == 42 && pos + 1 < src.len() && src[pos + 1] == 47 {
        spec_skip_ws(src, pos + 2, line)
    } else if src[pos] == 10 {
        spec_skip_block_comment(src, pos + 1, line + 1)
    } else {
        spec_skip_block_comment(src, pos + 1, line)
    }
}

/// End of a run of identifier characters starting at `pos`.
pub open spec fn spec_scan_alnum(src: Seq<u8>, pos: int) -> int
    decreases src.len() - pos,
{
    if 0 <= pos < src.len() && spec_is_alnum(src[pos]) {
        spec_scan_alnum(src, pos + 1)
    } else {
        pos
    }
}

/// End of a run of decimal digits starting at `pos`.
pub open spec fn spec_scan_digits(src: Seq<u8>, pos: int) -> int
    decreases src.len() - pos,
{
    if 0 <= pos < src.len() && spec_is_digit(src[pos]) {
        spec_scan_digits(src, pos + 1)
    } else {
        pos
    }
}

/// Scanning a string body from `pos`: the position of the closing quote (or
/// the end of input when unterminated) and the line after the newlines
/// crossed.
pub open spec fn spec_scan_string(src: Seq<u8>, pos: int, line: int) -> (int, int)
    decreases src.len() - pos,
{
    if pos < 0 || pos >= src.len() {
        (pos, line)
    } else if src[pos] == 34 {
        (pos, line)
    } else if src[pos] == 10 {
        spec_scan_string(src, pos + 1, line + 1)
    } else {
        spec_scan_string(src, pos + 1, line)
    }
}

/// The kind and width of a punctuation token starting at `pos`, if the byte
/// there starts one; maximal munch for the two-byte operators.
pub open spec fn spec_punct(src: Seq<u8>, pos: int) -> Option<(TokenType, int)> {
    let c = src[pos];
    if c == 40 {
        Some((TokenType::LeftParen, 1))
    } else if c == 41 {
        Some((TokenType::RightParen, 1))
    } else if c == 123 {
        Some((TokenType::LeftBrace, 1))
    } else if c == 125 {
        Some((TokenType::RightBrace, 1))
    } else if c == 91 {
        Some((TokenType::LeftBracket, 1))
    } else if c == 93 {
        Some((TokenType::RightBracket, 1))
    } else if c == 43 {
        Some((TokenType::Plus, 1))
    } else if c == 42 {
        Some((TokenType::Star, 1))
    } else if c == 47 {
        Some((TokenType::Slash, 1))
    } else if c == 44 {
        Some((TokenType::Comma, 1))
    } else if c == 59 {
        Some((TokenType::Semicolon, 1))
    } else if c == 61 {
        if pos + 1 < src.len() && src[pos + 1] == 61 {
            Some((TokenType::EqualEqual, 2))
        } else {
            Some((TokenType::Equal, 1))
        }
    } else if c == 62 {
        if pos + 1 < src.len() && src[pos + 1] == 61 {
            Some((TokenType::GreaterEqual, 2))
        } else {
            Some((TokenType::Greater, 1))
        }
    } else if c == 60 {
        if pos + 1 < src.len() && src[pos + 1] == 61 {
            Some((TokenType::LessEqual, 2))
        } else {
            Some((TokenType::Less, 1))
        }
    } else if c == 33 {
        if pos + 1 < src.len() && src[pos + 1] == 61 {
            Some((TokenType::BangEqual, 2))
        } else {
            Some((TokenType::Bang, 1))
        }
    } else if c == 46 {
        if pos + 1 < src.len() && src[pos + 1] == 46 {
            Some((TokenType::DotDot, 2))
        } else {
            Some((TokenType::Dot, 1))
        }
    } else if c == 45 {
        if pos + 1 < src.len() && src[pos + 1] == 58 {
            Some((TokenType::MinusColon, 2))
        } else {
            Some((TokenType::Minus, 1))
        }
    } else {
        None
    }
}

/// The diagnostic text for a string literal with no closing quote.
pub open spec fn spec_unterminated_string_message() -> Seq<u8> {
    "unterminated string.".spec_bytes()
}

/// The diagnostic text for a character literal with no closing quote.
pub open spec fn spec_unterminated_character_message() -> Seq<u8> {
    "unterminated character.".spec_bytes()
}

/// The diagnostic text for a byte no token can start with.
pub open spec fn spec_unexpected_character_message(c: u8) -> Seq<u8> {
    "unexpected character '".spec_bytes() + seq![c] + "'".spec_bytes()
}

/// What one step of the scanner produces.
pub ghost enum ScanItem {
    /// The scanner had already finished; it produces nothing more.
    End,
    /// A token with its kind, span and line.
    Tok { id: TokenType, start: int, end: int, line: int },
    /// A scan error with its text and line.
    Fail { msg: Seq<u8>, line: int },
}

/// One scanner step: the item produced and the scanner state after it.
pub ghost struct ScanOut {
    pub item: ScanItem,
    pub pos: int,
    pub line: int,
    pub at_end: bool,
}

/// The scanner's next step from the given state: skip blanks and comments,
/// then produce the end-of-input token once, a token, or a scan error.
pub open spec fn spec_next_token(src: Seq<u8>, pos0: int, line0: int, at_end: bool) -> ScanOut {
    if at_end {
        ScanOut { item: ScanItem::End, pos: pos0, line: line0, at_end: true }
    } else {
        let (pos, line) = spec_skip_ws(src, pos0, line0);
        if pos >= src.len() {
            ScanOut {
                item: ScanItem::Tok { id: TokenType::EOF, start: pos, end: pos, line },
                pos,
                line,
                at_end: true,
            }
        } else {
            let c = src[pos];
            if spec_is_alpha(c) {
                let e = spec_scan_alnum(src, pos + 1);
                ScanOut {
                    item: ScanItem::Tok {
                        id: spec_keyword(src.subrange(pos, e)),
                        start: pos,
                        end: e,
                        line,
                    },
                    pos: e,
                    line,
                    at_end: false,
                }
            } else if spec_is_digit(c) {
                let e = spec_scan_digits(src, pos + 1);
                ScanOut {
                    item: ScanItem::Tok { id: TokenType::Number, start: pos, end: e, line },
                    pos: e,
                    line,
                    at_end: false,
                }
            } else if c == 34 {
                let (close, line2) = spec_scan_string(src, pos + 1, line);
                if close >= src.len() {
                    ScanOut {
                        item: ScanItem::Fail { msg: spec_unterminated_string_message(), line: line2 },
                        pos: close,
                        line: line2,
                        at_end: false,
                    }
                } else {
                    ScanOut {
                        item: ScanItem::Tok {
                            id: TokenType::String,
                            start: pos,
                            end: close + 1,
                            line: line2,
                        },
                        pos: close + 1,
                        line: line2,
                        at_end: false,
                    }
                }
            } else if c == 39 {
                if pos + 2 < src.len() && src[pos + 2] == 39 {
                    ScanOut {
                        item: ScanItem::Tok {
                            id: TokenType::CharLit,
                            start: pos,
                            end: pos + 3,
                            line,
                        },
                        pos: pos + 3,
                        line,
                        at_end: false,
                    }
                } else {
                    ScanOut {
                        item: ScanItem::Fail {
                            msg: spec_unterminated_character_message(),
                            line,
                        },
                        pos: pos + 1,
                        line,
                        at_end: false,
                    }
                }
            } else {
                match spec_punct(src, pos) {
                    Some((id, w)) => ScanOut {
                        item: ScanItem::Tok { id, start: pos, end: pos + w, line },
                        pos: pos + w,
                        line,
                        at_end: false,
                    },
                    None => ScanOut {
                        item: ScanItem::Fail { msg: spec_unexpected_character_message(c), line },
                        pos: pos + 1,
                        line,
                        at_end: false,
                    },
                }
            }
        }
    }
}

/// Skipping blanks never moves backwards, never leaves the buffer, and never
/// lowers the line counter.
pub proof fn lemma_skip_ws_bounds(src: Seq<u8>, pos: int, line: int)
    requires
        0 <= pos <= src.len(),
    ensures
        pos <= spec_skip_ws(src, pos, line).0 <= src.len(),
        spec_skip_ws(src, pos, line).1 >= line,
    decreases src.len() - pos, 0int,
{
    if pos < src.len() {
        let c = src[pos];
        if c == 32 || c == 9 || c == 13 {
            lemma_skip_ws_bounds(src, pos + 1, line);
        } else if c == 10 {
            lemma_skip_ws_bounds(src, pos + 1, line + 1);
        } else if c == 47 && pos + 1 < src.len() && src[pos + 1] == 47 {
            lemma_skip_line_comment_bounds(src, pos + 2, line);
        } else if c == 47 && pos + 1 < src.len() && src[pos + 1] == 42 {
            lemma_skip_block_comment_bounds(src, pos + 2, line);
        }
    }
}

/// Bounds for the line-comment part of blank skipping.
pub proof fn lemma_skip_line_comment_bounds(src: Seq<u8>, pos: int, line: int)
    requires
        0 <= pos <= src.len(),
    ensures
        pos <= spec_skip_line_comment(src, pos, line).0 <= src.len(),
        spec_skip_line_comment(src, pos, line).1 >= line,
    decreases src.len() - pos, 1int,
{
    if pos < src.len() {
        if src[pos] == 10 {
            lemma_skip_ws_bounds(src, pos, line);
        } else {
            lemma_skip_line_comment_bounds(src, pos + 1, line);
        }
    }
}

/// Bounds for the block-comment part of blank skipping.
pub proof fn lemma_skip_block_comment_bounds(src: Seq<u8>, pos: int, line: int)
    requires
        0 <= pos <= src.len(),
    ensures
        pos <= spec_skip_block_comment(src, pos, line).0 <= src.len(),
        spec_skip_block_comment(src, pos, line).1 >= line,
    decreases src.len() - pos, 1int,
{
    if pos < src.len() {
        if src[pos] == 42 && pos + 1 < src.len() && src[pos + 1] == 47 {
            lemma_skip_ws_bounds(src, pos + 2, line);
        } else if src[pos] == 10 {
            lemma_skip_block_comment_bounds(src, pos + 1, line + 1);
        } else {
            lemma_skip_block_comment_bounds(src, pos + 1, line);
        }
    }
}

/// An identifier run ends within the buffer, at or after where it starts.
pub proof fn lemma_scan_alnum_bounds(src: Seq<u8>, pos: int)
    requires
        0 <= pos <= src.len(),
    ensures
        pos <= spec_scan_alnum(src, pos) <= src.len(),
    decreases src.len() - pos,
{
    if pos < src.len() && spec_is_alnum(src[pos]) {
        lemma_scan_alnum_bounds(src, pos + 1);
    }
}

/// A digit run ends within the buffer, at or after where it starts.
pub proof fn lemma_scan_digits_bounds(src: Seq<u8>, pos: int)
    requires
        0 <= pos <= src.len(),
    ensures
        pos <= spec_scan_digits(src, pos) <= src.len(),
    decreases src.len() - pos,
{
    if pos < src.len() && spec_is_digit(src[pos]) {
        lemma_scan_digits_bounds(src, pos + 1);
    }
}

/// Every byte inside a digit run is a digit.
pub proof fn lemma_scan_digits_chars(src: Seq<u8>, pos: int)
    requires
        0 <= pos <= src.len(),
    ensures
        forall|j: int| pos <= j < spec_scan_digits(src, pos) ==> spec_is_digit(#[trigger] src[j]),
    decreases src.len() - pos,
{
    if pos < src.len() && spec_is_digit(src[pos]) {
        lemma_scan_digits_chars(src, pos + 1);
        lemma_scan_digits_bounds(src, pos + 1);
    }
}

/// A string body scan ends within the buffer and never lowers the line.
pub proof fn lemma_scan_string_bounds(src: Seq<u8>, pos: int, line: int)
    requires
        0 <= pos <= src.len(),
    ensures
        pos <= spec_scan_string(src, pos, line).0 <= src.len(),
        spec_scan_string(src, pos, line).1 >= line,
    decreases src.len() - pos,
{
    if pos < src.len() && src[pos] != 34 {
        if src[pos] == 10 {
            lemma_scan_string_bounds(src, pos + 1, line + 1);
        } else {
            lemma_scan_string_bounds(src, pos + 1, line);
        }
    }
}

/// The progress measure of a scanner state: strictly decreases with every
/// produced token or error, and is exhausted once the end marker is out.
pub open spec fn spec_scan_measure(len: int, pos: int, at_end: bool) -> int {
    2 * (len - pos) + if at_end {
        0int
    } else {
        1int
    }
}

/// What every scanner step guarantees: positions stay in the buffer and move
/// forward, the line only grows, token spans are well-placed, the end marker
/// coincides with the end flag, and each produced item strictly shrinks the
/// progress measure.
pub proof fn lemma_next_token_facts(src: Seq<u8>, pos0: int, line0: int, at_end: bool)
    requires
        0 <= pos0 <= src.len(),
    ensures
        ({
            let o = spec_next_token(src, pos0, line0, at_end);
            &&& pos0 <= o.pos <= src.len()
            &&& o.line >= line0
            &&& (o.item is End <==> at_end)
            &&& (o.item is End ==> o.pos == pos0 && o.line == line0 && o.at_end)
            &&& (match o.item {
                ScanItem::Tok { id, start, end, line } => {
                    &&& 0 <= start <= end <= src.len()
                    &&& end == o.pos
                    &&& line == o.line
                    &&& (id == TokenType::EOF <==> o.at_end)
                    &&& (id != TokenType::EOF ==> start < end)
                    &&& (id == TokenType::Number ==> end - start >= 1 && forall|j: int|
                        start <= j < end ==> spec_is_digit(#[trigger] src[j]))
                    &&& (id == TokenType::String ==> end - start >= 2)
                },
                ScanItem::Fail { msg, line } => !o.at_end && line == o.line,
                ScanItem::End => true,
            })
            &&& (!(o.item is End) ==> spec_scan_measure(src.len() as int, o.pos, o.at_end)
                < spec_scan_measure(src.len() as int, pos0, at_end))
        }),
{
    if !at_end {
        lemma_skip_ws_bounds(src, pos0, line0);
        let (pos, line) = spec_skip_ws(src, pos0, line0);
        if pos < src.len() {
            let c = src[pos];
            if spec_is_alpha(c) {
                lemma_scan_alnum_bounds(src, pos + 1);
            } else if spec_is_digit(c) {
                lemma_scan_digits_bounds(src, pos + 1);
                lemma_scan_digits_chars(src, pos + 1);
            } else if c == 34 {
                lemma_scan_string_bounds(src, pos + 1, line);
            }
        }
    }
}

/// ASCII letter or underscore.
fn is_alpha(c: u8) -> (r: bool)
    ensures
        r == spec_is_alpha(c),
{
    (65 <= c && c <= 90) || (97 <= c && c <= 122) || c == 95
}

/// The scanner: a cursor over an owned copy of the source bytes. `start`
/// marks the first byte of the token being scanned, `current` the next byte
/// to read; `at_end` is set once the end-of-input token has been produced.
pub struct Scanner {
    source: Vec<u8>,
    start: usize,
    current: usize,
    at_end: bool,
    line: usize,
}

impl Scanner {
    /// The source buffer.
    pub closed spec fn spec_source(&self) -> Seq<u8> {
        self.source@
    }

    /// Start of the token being scanned.
    pub closed spec fn spec_start(&self) -> int {
        self.start as int
    }

    /// The read position.
    pub closed spec fn spec_pos(&self) -> int {
        self.current as int
    }

    /// The current line.
    pub closed spec fn spec_line(&self) -> int {
        self.line as int
    }

    /// Whether the end-of-input token is already out.
    pub closed spec fn spec_at_end(&self) -> bool {
        self.at_end
    }

    /// The cursor stays in the buffer and the line counter stays plausible.
    pub open spec fn wf(&self) -> bool {
        &&& 0 <= self.spec_pos() <= self.spec_source().len()
        &&& self.spec_source().len() < usize::MAX
        &&& 1 <= self.spec_line() <= self.spec_pos() + 1
    }

    /// How much scanning work is left; strictly shrinks with every token.
    pub open spec fn spec_measure(&self) -> int {
        spec_scan_measure(self.spec_source().len() as int, self.spec_pos(), self.spec_at_end())
    }

    /// A fresh scanner over a copy of the source, at its first byte, line 1.
    pub fn new(source: &[u8]) -> (r: Self)
        requires
            source@.len() < usize::MAX,
        ensures
            r.wf(),
            r.spec_source() == source@,
            r.spec_pos() == 0,
            r.spec_line() == 1,
            !r.spec_at_end(),
    {
        Scanner {
            source: vstd::slice::slice_to_vec(source),
            start: 0,
            current: 0,
            at_end: false,
            line: 1,
        }
    }

    /// Reads a span of the source back out (a token's lexeme).
    pub fn source_slice(&self, start: usize, len: usize) -> (r: &[u8])
        requires
            start + len <= self.spec_source().len(),
        ensures
            r@ == self.spec_source().subrange(start as int, start + len),
    {
        let n = self.source.len();
        &self.source.as_slice()[start..start + len]
    }

    /// Whether the cursor is at the end of the buffer.
    pub fn is_at_end(&self) -> (r: bool)
        ensures
            r == (self.spec_pos() == self.spec_source().len()),
    {
        self.current == self.source.len()
    }

    /// Consumes and returns the next byte, if any.
    fn advance(&mut self) -> (r: Option<u8>)
        requires
            old(self).wf(),
        ensures
            final(self).wf(),
            final(self).spec_source() == old(self).spec_source(),
            final(self).spec_start() == old(self).spec_start(),
            final(self).spec_at_end() == old(self).spec_at_end(),
            final(self).line == old(self).line,
            if old(self).spec_pos() < old(self).spec_source().len() {
                r == Some(old(self).spec_source()[old(self).spec_pos()]) && final(self).spec_pos()
                    == old(self).spec_pos() + 1
            } else {
                r is None && final(self).spec_pos() == old(self).spec_pos()
            },
    {
        if self.current == self.source.len() {
            return None;
        }
        let c = self.source[self.current];
        self.current = self.current + 1;
        Some(c)
    }

    /// The byte at the cursor, if any, without consuming it.
    fn peek(&self) -> (r: Option<u8>)
        requires
            self.wf(),
        ensures
            r == if self.spec_pos() < self.spec_source().len() {
                Some(self.spec_source()[self.spec_pos()])
            } else {
                Option::<u8>::None
            },
    {
        if self.current == self.source.len() {
            return None;
        }
        Some(self.source[self.current])
    }

    /// The byte after the cursor, if any.
    fn peek_next(&self) -> (r: Option<u8>)
        requires
            self.wf(),
        ensures
            r == if self.spec_pos() + 1 < self.spec_source().len() {
                Some(self.spec_source()[self.spec_pos() + 1])
            } else {
                Option::<u8>::None
            },
    {
        if self.current == self.source.len() {
            return None;
        }
        if self.current + 1 == self.source.len() {
            return None;
        }
        Some(self.source[self.current + 1])
    }

    /// A token of the given kind spanning from `start` to the cursor, on the
    /// current line.
    fn make_token(&self, id: TokenType) -> (r: Token)
        requires
            self.spec_start() <= self.spec_pos(),
        ensures
            r.id == id,
            r.start == self.spec_start(),
            r.len == self.spec_pos() - self.spec_start(),
            r.line == self.spec_line(),
    {
        Token { id, start: self.start, len: self.current - self.start, line: self.line }
    }

    /// Skips whitespace, line comments and block comments, counting the
    /// newlines crossed.
    pub fn skip_whitespace(&mut self)
        requires
            old(self).wf(),
        ensures
            final(self).wf(),
            final(self).spec_source() == old(self).spec_source(),
            final(self).spec_start() == old(self).spec_start(),
            final(self).spec_at_end() == old(self).spec_at_end(),
            (final(self).spec_pos(), final(self).spec_line()) == spec_skip_ws(
                old(self).spec_source(),
                old(self).spec_pos(),
                old(self).spec_line(),
            ),
    {
        let ghost goal = spec_skip_ws(
            old(self).spec_source(),
            old(self).spec_pos(),
            old(self).spec_line(),
        );
        let n = self.source.len();
        loop
            invariant
                self.wf(),
                self.source == old(self).source,
                self.start == old(self).start,
                self.at_end == old(self).at_end,
                n == self.source@.len(),
                spec_skip_ws(self.spec_source(), self.spec_pos(), self.spec_line()) == goal,
            ensures
                self.wf(),
                self.source == old(self).source,
                self.start == old(self).start,
                self.at_end == old(self).at_end,
                (self.spec_pos(), self.spec_line()) == goal,
            decreases n - self.current,
        {
            if self.current >= n {
                break ;
            }
            let ghost it0 = self.current as int;
            let c = self.source[self.current];
            if c == 32 || c == 9 || c == 13 {
                self.current = self.current + 1;
            } else if c == 10 {
                self.line = self.line + 1;
                self.current = self.current + 1;
            } else if c == 47 && self.current + 1 < n && self.source[self.current + 1] == 47 {
                self.current = self.current + 2;
                while self.current < n && self.source[self.current] != 10
                    invariant
                        self.wf(),
                        self.source == old(self).source,
                        self.start == old(self).start,
                        self.at_end == old(self).at_end,
                        n == self.source@.len(),
                        it0 < self.current,
                        spec_skip_line_comment(self.spec_source(), self.spec_pos(), self.spec_line())
                            == goal,
                    decreases n - self.current,
                {
                    self.current = self.current + 1;
                }
                if self.current >= n {
                    proof {
                        assert((self.spec_pos(), self.spec_line()) == goal);
                    }
                    break ;
                }
            } else if c == 47 && self.current + 1 < n && self.source[self.current + 1] == 42 {
                self.current = self.current + 2;
                while self.current < n && !(self.source[self.current] == 42 && self.current + 1 < n
                    && self.source[self.current + 1] == 47)
                    invariant
                        self.wf(),
                        self.source == old(self).source,
                        self.start == old(self).start,
                        self.at_end == old(self).at_end,
                        n == self.source@.len(),
                        it0 < self.current,
                        spec_skip_block_comment(
                            self.spec_source(),
                            self.spec_pos(),
                            self.spec_line(),
                        ) == goal,
                    decreases n - self.current,
                {
                    if self.source[self.current] == 10 {
                        self.line = self.line + 1;
                    }
                    self.current = self.current + 1;
                }
                if self.current < n {
                    self.current = self.current + 2;
                } else {
                    proof {
                        assert((self.spec_pos(), self.spec_line()) == goal);
                    }
                    break ;
                }
            } else {
                proof {
                    assert((self.spec_pos(), self.spec_line()) == goal);
                }
                break ;
            }
        }
    }

    /// Scans the rest of a string literal; the opening quote is behind the
    /// cursor. Newlines inside the literal count; a literal the input ends
    /// inside of is an error.
    pub fn string(&mut self) -> (r: Result<Token, ScannerError>)
        requires
            old(self).wf(),
            old(self).spec_start() + 1 == old(self).spec_pos(),
        ensures
            final(self).wf(),
            final(self).spec_source() == old(self).spec_source(),
            final(self).spec_start() == old(self).spec_start(),
            final(self).spec_at_end() == old(self).spec_at_end(),
            ({
                let (close, line2) = spec_scan_string(
                    old(self).spec_source(),
                    old(self).spec_pos(),
                    old(self).spec_line(),
                );
                if close >= old(self).spec_source().len() {
                    &&& r matches Err(e) && e.message@ == spec_unterminated_string_message()
                        && e.line == line2
                    &&& final(self).spec_pos() == close
                    &&& final(self).spec_line() == line2
                } else {
                    &&& r matches Ok(t) && t.id == TokenType::String && t.start == old(
                        self,
                    ).spec_start() && t.start + t.len == close + 1 && t.line == line2
                    &&& final(self).spec_pos() == close + 1
                    &&& final(self).spec_line() == line2
                }
            }),
    {
        let ghost goal = spec_scan_string(
            old(self).spec_source(),
            old(self).spec_pos(),
            old(self).spec_line(),
        );
        let n = self.source.len();
        while self.current < n && self.source[self.current] != 34
            invariant
                self.wf(),
                self.source == old(self).source,
                self.start == old(self).start,
                self.at_end == old(self).at_end,
                self.start < self.current,
                n == self.source@.len(),
                spec_scan_string(self.spec_source(), self.spec_pos(), self.spec_line()) == goal,
            decreases n - self.current,
        {
            if self.source[self.current] == 10 {
                self.line = self.line + 1;
            }
            self.current = self.current + 1;
        }
        if self.current >= n {
            let mut msg: Vec<u8> = Vec::new();
            extend_str(&mut msg, "unterminated string.");
            return ScannerError::new(msg, self.line);
        }
        self.current = self.current + 1;
        Ok(self.make_token(TokenType::String))
    }

    /// Scans the rest of a one-character literal; the opening quote is
    /// behind the cursor.
    pub fn char(&mut self) -> (r: Result<Token, ScannerError>)
        requires
            old(self).wf(),
            old(self).spec_start() + 1 == old(self).spec_pos(),
        ensures
            final(self).wf(),
            final(self).spec_source() == old(self).spec_source(),
            final(self).spec_start() == old(self).spec_start(),
            final(self).spec_at_end() == old(self).spec_at_end(),
            final(self).spec_line() == old(self).spec_line(),
            if old(self).spec_pos() + 1 < old(self).spec_source().len() && old(
                self,
            ).spec_source()[old(self).spec_pos() + 1] == 39 {
                &&& r matches Ok(t) && t.id == TokenType::CharLit && t.start == old(
                    self,
                ).spec_start() && t.len == 3 && t.line == old(self).spec_line()
                &&& final(self).spec_pos() == old(self).spec_pos() + 2
            } else {
                &&& r matches Err(e) && e.message@ == spec_unterminated_character_message()
                    && e.line == old(self).spec_line()
                &&& final(self).spec_pos() == old(self).spec_pos()
            },
    {
        let two = self.peek_next();
        let ok = match two {
            Some(c) => c == 39,
            None => false,
        };
        if !ok {
            let mut msg: Vec<u8> = Vec::new();
            extend_str(&mut msg, "unterminated character.");
            return ScannerError::new(msg, self.line);
        }
        self.advance();
        self.advance();
        Ok(self.make_token(TokenType::CharLit))
    }

    /// Scans the rest of a digit run; the first digit is behind the cursor.
    pub fn number(&mut self) -> (r: Result<Token, ScannerError>)
        requires
            old(self).wf(),
            old(self).spec_start() + 1 == old(self).spec_pos(),
        ensures
            final(self).wf(),
            final(self).spec_source() == old(self).spec_source(),
            final(self).spec_start() == old(self).spec_start(),
            final(self).spec_at_end() == old(self).spec_at_end(),
            final(self).spec_line() == old(self).spec_line(),
            final(self).spec_pos() == spec_scan_digits(
                old(self).spec_source(),
                old(self).spec_pos(),
            ),
            r matches Ok(t) && t.id == TokenType::Number && t.start == old(self).spec_start()
                && t.start + t.len == final(self).spec_pos() && t.line == old(self).spec_line(),
    {
        let n = self.source.len();
        while self.current < n && 48 <= self.source[self.current] && self.source[self.current]
            <= 57
            invariant
                self.wf(),
                self.source == old(self).source,
                self.start == old(self).start,
                self.at_end == old(self).at_end,
                self.line == old(self).line,
                self.start < self.current,
                n == self.source@.len(),
                spec_scan_digits(self.spec_source(), self.spec_pos()) == spec_scan_digits(
                    old(self).spec_source(),
                    old(self).spec_pos(),
                ),
            decreases n - self.current,
        {
            self.current = self.current + 1;
        }
        Ok(self.make_token(TokenType::Number))
    }

    /// The keyword the current lexeme spells, or a generic identifier.
    fn id_type(&self) -> (r: TokenType)
        requires
            self.spec_start() <= self.spec_pos() <= self.spec_source().len(),
        ensures
            r == spec_keyword(self.spec_source().subrange(self.spec_start(), self.spec_pos())),
    {
        let n = self.source.len();
        let lex: &[u8] = &self.source.as_slice()[self.start..self.current];
        if crate::text::bytes_eq(lex, "true".as_bytes()) {
            TokenType::True
        } else if crate::text::bytes_eq(lex, "false".as_bytes()) {
            TokenType::False
        } else if crate::text::bytes_eq(lex, "nil".as_bytes()) {
            TokenType::Nil
        } else if crate::text::bytes_eq(lex, "struct".as_bytes()) {
            TokenType::Struct
        } else if crate::text::bytes_eq(lex, "enum".as_bytes()) {
            TokenType::Enum
        } else if crate::text::bytes_eq(lex, "char".as_bytes()) {
            TokenType::Char
        } else if crate::text::bytes_eq(lex, "int".as_bytes()) {
            TokenType::Int
        } else if crate::text::bytes_eq(lex, "typedef".as_bytes()) {
            TokenType::Typedef
        } else if crate::text::bytes_eq(lex, "bind".as_bytes()) {
            TokenType::Bind
        } else if crate::text::bytes_eq(lex, "def".as_bytes()) {
            TokenType::Def
        } else if crate::text::bytes_eq(lex, "if".as_bytes()) {
            TokenType::If
        } else if crate::text::bytes_eq(lex, "print".as_bytes()) {
            TokenType::Print
        } else if crate::text::bytes_eq(lex, "return".as_bytes()) {
            TokenType::Return
        } else {
            TokenType::Identifier
        }
    }

    /// Scans the rest of an identifier; its first character is behind the
    /// cursor. The lexeme is then checked against the keyword set.
    pub fn identifier(&mut self) -> (r: Result<Token, ScannerError>)
        requires
            old(self).wf(),
            old(self).spec_start() + 1 == old(self).spec_pos(),
        ensures
            final(self).wf(),
            final(self).spec_source() == old(self).spec_source(),
            final(self).spec_start() == old(self).spec_start(),
            final(self).spec_at_end() == old(self).spec_at_end(),
            final(self).spec_line() == old(self).spec_line(),
            final(self).spec_pos() == spec_scan_alnum(
                old(self).spec_source(),
                old(self).spec_pos(),
            ),
            r matches Ok(t) && t.id == spec_keyword(
                old(self).spec_source().subrange(old(self).spec_start(), final(self).spec_pos()),
            ) && t.start == old(self).spec_start() && t.start + t.len == final(self).spec_pos()
                && t.line == old(self).spec_line(),
    {
        let n = self.source.len();
        while self.current < n && is_alpha_numer(self.source[self.current])
            invariant
                self.wf(),
                self.source == old(self).source,
                self.start == old(self).start,
                self.at_end == old(self).at_end,
                self.line == old(self).line,
                self.start < self.current,
                n == self.source@.len(),
                spec_scan_alnum(self.spec_source(), self.spec_pos()) == spec_scan_alnum(
                    old(self).spec_source(),
                    old(self).spec_pos(),
                ),
            decreases n - self.current,
        {
            self.current = self.current + 1;
        }
        let id = self.id_type();
        Ok(self.make_token(id))
    }

    /// Produces the next token, a scan error, or — exactly once — the
    /// end-of-input token; after that, nothing more. This is precisely one
    /// step of `spec_next_token`.
    pub fn next(&mut self) -> (r: Option<Result<Token, ScannerError>>)
        requires
            old(self).wf(),
        ensures
            final(self).wf(),
            final(self).spec_source() == old(self).spec_source(),
            ({
                let o = spec_next_token(
                    old(self).spec_source(),
                    old(self).spec_pos(),
                    old(self).spec_line(),
                    old(self).spec_at_end(),
                );
                &&& final(self).spec_pos() == o.pos
                &&& final(self).spec_line() == o.line
                &&& final(self).spec_at_end() == o.at_end
                &&& match r {
                    None => o.item is End,
                    Some(Ok(t)) => o.item matches ScanItem::Tok { id, start, end, line }
                        && t.id == id && t.start == start && t.start + t.len == end && t.line
                        == line,
                    Some(Err(e)) => o.item matches ScanItem::Fail { msg, line } && e.message@
                        == msg && e.line == line,
                }
            }),
            r is Some ==> final(self).spec_measure() < old(self).spec_measure(),
    {
        proof {
            lemma_next_token_facts(
                old(self).spec_source(),
                old(self).spec_pos(),
                old(self).spec_line(),
                old(self).spec_at_end(),
            );
        }
        if self.at_end {
            return None;
        }
        self.skip_whitespace();
        self.start = self.current;
        let co = self.advance();
        let c = match co {
            None => {
                self.at_end = true;
                return Some(Ok(self.make_token(TokenType::EOF)));
            },
            Some(c) => c,
        };
        if is_alpha(c) {
            return Some(self.identifier());
        }
        if 48 <= c && c <= 57 {
            return Some(self.number());
        }
        if c == 34 {
            return Some(self.string());
        }
        if c == 39 {
            return Some(self.char());
        }
        let id: TokenType = if c == 40 {
            TokenType::LeftParen
        } else if c == 41 {
            TokenType::RightParen
        } else if c == 123 {
            TokenType::LeftBrace
        } else if c == 125 {
            TokenType::RightBrace
        } else if c == 91 {
            TokenType::LeftBracket
        } else if c == 93 {
            TokenType::RightBracket
        } else if c == 43 {
            TokenType::Plus
        } else if c == 42 {
            TokenType::Star
        } else if c == 47 {
            TokenType::Slash
        } else if c == 44 {
            TokenType::Comma
        } else if c == 59 {
            TokenType::Semicolon
        } else if c == 61 {
            let two = self.peek();
            if two == Some(61u8) {
                self.advance();
                TokenType::EqualEqual
            } else {
                TokenType::Equal
            }
        } else if c == 62 {
            let two = self.peek();
            if two == Some(61u8) {
                self.advance();
                TokenType::GreaterEqual
            } else {
                TokenType::Greater
            }
        } else if c == 60 {
            let two = self.peek();
            if two == Some(61u8) {
                self.advance();
                TokenType::LessEqual
            } else {
                TokenType::Less
            }
        } else if c == 33 {
            let two = self.peek();
            if two == Some(61u8) {
                self.advance();
                TokenType::BangEqual
            } else {
                TokenType::Bang
            }
        } else if c == 46 {
            let two = self.peek();
            if two == Some(46u8) {
                self.advance();
                TokenType::DotDot
            } else {
                TokenType::Dot
            }
        } else if c == 45 {
            let two = self.peek();
            if two == Some(58u8) {
                self.advance();
                TokenType::MinusColon
            } else {
                TokenType::Minus
            }
        } else {
            let mut msg: Vec<u8> = Vec::new();
            extend_str(&mut msg, "unexpected character '");
            msg.push(c);
            extend_str(&mut msg, "'");
            proof {
                assert(msg@ =~= spec_unexpected_character_message(c));
            }
            return Some(ScannerError::new(msg, self.line));
        };
        Some(Ok(self.make_token(id)))
    }
}

} // verus!
