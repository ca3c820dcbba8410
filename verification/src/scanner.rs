//! The lexical scanner: one token per call, on demand.
//!
//! The grammar is stated once, as spec functions over the bytes of the source
//! ([`blank_end`], [`lex`], [`token_at`]); the scanner's methods are proved to
//! compute them.
use crate::token::{Token, TokenType};
use vstd::prelude::*;
use vstd::string::StringSliceAdditionalSpecFns;
use vstd::utf8::encode_utf8;

verus! {

pub open spec fn spec_is_digit(ch: u8) -> bool {
    '0' as u8 <= ch && ch <= '9' as u8
}

pub open spec fn spec_is_alpha(ch: u8) -> bool {
    ('a' as u8 <= ch && ch <= 'z' as u8) || ('A' as u8 <= ch && ch <= 'Z' as u8) || ch == '_' as u8
}

/// Whether `ch` is an ASCII decimal digit.
#[verifier::when_used_as_spec(spec_is_digit)]
pub fn is_digit(ch: u8) -> (yes: bool)
    ensures
        yes == spec_is_digit(ch),
{
    ch >= '0' as u8 && ch <= '9' as u8
}

/// Whether `ch` is an ASCII letter or an underscore.
#[verifier::when_used_as_spec(spec_is_alpha)]
pub fn is_alpha(ch: u8) -> (yes: bool)
    ensures
        yes == spec_is_alpha(ch),
{
    ch >= 'a' as u8 && ch <= 'z' as u8 || ch >= 'A' as u8 && ch <= 'Z' as u8 || ch == '_' as u8
}

/// Space, tab, carriage return and line feed: the bytes skipped between tokens.
pub open spec fn is_blank(ch: u8) -> bool {
    ch == ' ' as u8 || ch == '\r' as u8 || ch == '\t' as u8 || ch == '\n' as u8
}

/// The byte of `src` at `pos`, and 0 where `pos` lies outside `src`.
pub open spec fn byte_at(src: Seq<u8>, pos: int) -> u8 {
    if 0 <= pos < src.len() {
        src[pos]
    } else {
        0
    }
}

/// The kinds of byte that the scanner consumes in runs.
pub enum Class {
    /// Decimal digits.
    digit,
    /// Letters, digits and underscores.
    word,
    /// Everything up to the end of the line.
    comment,
    /// Everything up to a double quote.
    text,
}

pub open spec fn in_class(class: Class, ch: u8) -> bool {
    match class {
        Class::digit => is_digit(ch),
        Class::word => is_alpha(ch) || is_digit(ch),
        Class::comment => ch != '\n' as u8,
        Class::text => ch != '"' as u8,
    }
}

/// Where the longest run of `class` bytes that starts at `pos` ends: the first
/// position from `pos` on that holds no byte of `class`.
pub open spec fn run_end(src: Seq<u8>, pos: int, class: Class) -> int
    decreases src.len() - pos,
{
    if 0 <= pos < src.len() && in_class(class, src[pos]) {
        run_end(src, pos + 1, class)
    } else {
        pos
    }
}

/// The number of line feeds among the first `upto` bytes of `src`.
pub open spec fn newlines(src: Seq<u8>, upto: int) -> int
    decreases upto,
{
    if upto <= 0 {
        0
    } else {
        newlines(src, upto - 1) + if byte_at(src, upto - 1) == '\n' as u8 {
            1int
        } else {
            0int
        }
    }
}

/// Where the blanks and line comments that start at `pos` end: the position
/// of the next token, or the end of `src`.
pub open spec fn blank_end(src: Seq<u8>, pos: int) -> int
    decreases src.len() - pos,
{
    if !(0 <= pos < src.len()) {
        pos
    } else if is_blank(src[pos]) {
        blank_end(src, pos + 1)
    } else if src[pos] == '/' as u8 && byte_at(src, pos + 1) == '/' as u8 {
        proof {
            lemma_run_end(src, pos + 1, Class::comment);
        }
        blank_end(src, run_end(src, pos, Class::comment))
    } else {
        pos
    }
}

/// The keyword that `lexeme` spells, or `identifier`.
pub open spec fn keyword(lexeme: Seq<u8>) -> TokenType {
    if lexeme == "and".spec_bytes() {
        TokenType::and
    } else if lexeme == "class".spec_bytes() {
        TokenType::class
    } else if lexeme == "else".spec_bytes() {
        TokenType::else_
    } else if lexeme == "false".spec_bytes() {
        TokenType::false_
    } else if lexeme == "fun".spec_bytes() {
        TokenType::fun
    } else if lexeme == "for".spec_bytes() {
        TokenType::for_
    } else if lexeme == "if".spec_bytes() {
        TokenType::if_
    } else if lexeme == "nil".spec_bytes() {
        TokenType::nil
    } else if lexeme == "or".spec_bytes() {
        TokenType::or
    } else if lexeme == "print".spec_bytes() {
        TokenType::print
    } else if lexeme == "return".spec_bytes() {
        TokenType::return_
    } else if lexeme == "super".spec_bytes() {
        TokenType::super_
    } else if lexeme == "this".spec_bytes() {
        TokenType::this
    } else if lexeme == "true".spec_bytes() {
        TokenType::true_
    } else if lexeme == "var".spec_bytes() {
        TokenType::var
    } else if lexeme == "while".spec_bytes() {
        TokenType::while_
    } else {
        TokenType::identifier
    }
}

/// Where a number literal ends whose digits are being read at `pos`: after
/// the digits, and after a fraction if a dot and a digit follow them.
pub open spec fn number_end(src: Seq<u8>, pos: int) -> int {
    let whole = run_end(src, pos, Class::digit);
    if byte_at(src, whole) == '.' as u8 && is_digit(byte_at(src, whole + 1)) {
        run_end(src, whole + 1, Class::digit)
    } else {
        whole
    }
}

/// The category of the token that starts at `begin`, and the position after
/// it. At the end of `src` the token is `eof` and covers nothing. A string
/// without its closing quote is an `error` that reaches to the end of `src`;
/// a byte that starts no token is an `error` of one byte.
pub open spec fn lex(src: Seq<u8>, begin: int) -> (TokenType, int) {
    if !(0 <= begin < src.len()) {
        (TokenType::eof, begin)
    } else if is_alpha(src[begin]) {
        let end = run_end(src, begin + 1, Class::word);
        (keyword(src.subrange(begin, end)), end)
    } else if is_digit(src[begin]) {
        (TokenType::number, number_end(src, begin + 1))
    } else {
        let then_equal = byte_at(src, begin + 1) == '=' as u8;
        match src[begin] as char {
            '(' => (TokenType::left_paren, begin + 1),
            ')' => (TokenType::right_paren, begin + 1),
            '{' => (TokenType::left_brace, begin + 1),
            '}' => (TokenType::right_brace, begin + 1),
            ';' => (TokenType::semicolon, begin + 1),
            ',' => (TokenType::comma, begin + 1),
            '.' => (TokenType::dot, begin + 1),
            '-' => (TokenType::minus, begin + 1),
            '+' => (TokenType::plus, begin + 1),
            '/' => (TokenType::slash, begin + 1),
            '*' => (TokenType::star, begin + 1),
            '!' => if then_equal {
                (TokenType::bang_equal, begin + 2)
            } else {
                (TokenType::bang, begin + 1)
            },
            '=' => if then_equal {
                (TokenType::equal_equal, begin + 2)
            } else {
                (TokenType::equal, begin + 1)
            },
            '<' => if then_equal {
                (TokenType::less_equal, begin + 2)
            } else {
                (TokenType::less, begin + 1)
            },
            '>' => if then_equal {
                (TokenType::greater_equal, begin + 2)
            } else {
                (TokenType::greater, begin + 1)
            },
            '"' => {
                let close = run_end(src, begin + 1, Class::text);
                if close < src.len() {
                    (TokenType::string, close + 1)
                } else {
                    (TokenType::error, close)
                }
            },
            _ => (TokenType::error, begin + 1),
        }
    }
}

/// The position from which the token after the one found from `pos` is sought.
pub open spec fn cursor_after(src: Seq<u8>, pos: int) -> int {
    lex(src, blank_end(src, pos)).1
}

/// The token found when scanning `src` from `pos`: blanks and comments are
/// skipped, then one token is read. Its line is the number of line feeds
/// before its end.
pub open spec fn token_at(src: Seq<u8>, pos: int) -> Token {
    let begin = blank_end(src, pos);
    let (ty, end) = lex(src, begin);
    Token {
        ty,
        start: if ty == TokenType::error {
            0
        } else {
            begin as usize
        },
        length: if ty == TokenType::error {
            0
        } else {
            (end - begin) as usize
        },
        line: newlines(src, end) as i32,
    }
}

/// A run stays inside the source, holds only bytes of its class, and cannot
/// be extended.
pub proof fn lemma_run_end(src: Seq<u8>, pos: int, class: Class)
    requires
        0 <= pos <= src.len(),
    ensures
        pos <= run_end(src, pos, class) <= src.len(),
        forall|i: int| pos <= i < run_end(src, pos, class) ==> in_class(class, #[trigger] src[i]),
        !in_class(class, byte_at(src, run_end(src, pos, class))) || run_end(src, pos, class)
            == src.len(),
    decreases src.len() - pos,
{
    if pos < src.len() && in_class(class, src[pos]) {
        lemma_run_end(src, pos + 1, class);
    }
}

/// Skipping blanks stays inside the source and stops before a byte that is
/// neither a blank nor the start of a comment, or at the end.
pub proof fn lemma_blank_end(src: Seq<u8>, pos: int)
    requires
        0 <= pos <= src.len(),
    ensures
        pos <= blank_end(src, pos) <= src.len(),
        !is_blank(byte_at(src, blank_end(src, pos))),
        !(byte_at(src, blank_end(src, pos)) == '/' as u8 && byte_at(src, blank_end(src, pos) + 1)
            == '/' as u8),
    decreases src.len() - pos,
{
    if pos < src.len() {
        if is_blank(src[pos]) {
            lemma_blank_end(src, pos + 1);
        } else if src[pos] == '/' as u8 && byte_at(src, pos + 1) == '/' as u8 {
            lemma_run_end(src, pos + 1, Class::comment);
            lemma_blank_end(src, run_end(src, pos, Class::comment));
        }
    }
}

/// Line feeds are counted up: a longer prefix holds at least as many.
pub proof fn lemma_newlines_monotonic(src: Seq<u8>, a: int, b: int)
    requires
        a <= b,
    ensures
        0 <= newlines(src, a) <= newlines(src, b),
        newlines(src, b) <= newlines(src, a) + (b - a),
    decreases b - a,
{
    if a < b {
        lemma_newlines_monotonic(src, a, b - 1);
    } else {
        lemma_newlines_nonnegative(src, a);
    }
}

proof fn lemma_newlines_nonnegative(src: Seq<u8>, a: int)
    ensures
        0 <= newlines(src, a),
    decreases a,
{
    if a > 0 {
        lemma_newlines_nonnegative(src, a - 1);
    }
}

/// Every token but `eof` covers at least one byte, `eof` is found exactly at
/// the end of the source, and no token reaches past the end.
pub proof fn lemma_lex_progress(src: Seq<u8>, begin: int)
    requires
        0 <= begin <= src.len(),
    ensures
        begin <= lex(src, begin).1 <= src.len(),
        lex(src, begin).0 == TokenType::eof <==> begin == src.len(),
        lex(src, begin).0 != TokenType::eof ==> begin < lex(src, begin).1,
{
    if begin < src.len() {
        lemma_run_end(src, begin + 1, Class::word);
        lemma_run_end(src, begin + 1, Class::digit);
        lemma_run_end(src, begin + 1, Class::text);
        let whole = run_end(src, begin + 1, Class::digit);
        if whole < src.len() {
            lemma_run_end(src, whole + 1, Class::digit);
        }
    }
}

/// Scanning moves forward: the cursor never goes back, stays inside the
/// source, and passes at least one byte for every token but `eof`.
pub proof fn lemma_scan_progress(src: Seq<u8>, pos: int)
    requires
        0 <= pos <= src.len(),
    ensures
        pos <= cursor_after(src, pos) <= src.len(),
        token_at(src, pos).ty != TokenType::eof ==> pos < cursor_after(src, pos),
        token_at(src, pos).ty == TokenType::eof ==> cursor_after(src, pos) == src.len(),
{
    lemma_blank_end(src, pos);
    lemma_lex_progress(src, blank_end(src, pos));
}

/// A token lies inside the source, and its line is not negative and fits the
/// line counter.
pub proof fn lemma_token_span(src: Seq<u8>, pos: int)
    requires
        0 <= pos <= src.len(),
        src.len() <= usize::MAX,
        newlines(src, src.len() as int) <= i32::MAX,
    ensures
        token_at(src, pos).start + token_at(src, pos).length <= src.len(),
        0 <= token_at(src, pos).line == newlines(src, cursor_after(src, pos)),
{
    lemma_scan_progress(src, pos);
    lemma_blank_end(src, pos);
    lemma_lex_progress(src, blank_end(src, pos));
    lemma_newlines_monotonic(src, 0, cursor_after(src, pos));
    lemma_newlines_monotonic(src, cursor_after(src, pos), src.len() as int);
}

/// Once the end of the source is reached, every further scan finds `eof`
/// again and leaves the cursor where it is.
pub proof fn lemma_eof_repeats(src: Seq<u8>, pos: int)
    requires
        0 <= pos <= src.len(),
        token_at(src, pos).ty == TokenType::eof,
    ensures
        token_at(src, cursor_after(src, pos)) == token_at(src, pos),
        cursor_after(src, cursor_after(src, pos)) == cursor_after(src, pos),
{
    lemma_scan_progress(src, pos);
}

/// The scanner's state: the source text and a cursor into its bytes.
pub struct Scanner {
    start: usize,
    current: usize,
    line: i32,
    pub codes: String,
}

impl Scanner {
    /// The bytes of the source text.
    pub closed spec fn source(&self) -> Seq<u8> {
        encode_utf8(self.codes@)
    }

    /// The position of the next byte to read.
    pub closed spec fn cursor(&self) -> int {
        self.current as int
    }

    /// The position at which the token being read starts.
    pub closed spec fn origin(&self) -> int {
        self.start as int
    }

    /// The line that the cursor is on, counted from 0.
    pub closed spec fn row(&self) -> int {
        self.line as int
    }

    /// The cursor lies inside the source, the line counter equals the number
    /// of line feeds before the cursor, and the source has no more line feeds
    /// than the counter can hold.
    pub open spec fn wf(&self) -> bool {
        &&& 0 <= self.origin() <= self.cursor() <= self.source().len()
        &&& self.row() == newlines(self.source(), self.cursor())
        &&& newlines(self.source(), self.source().len() as int) <= i32::MAX
    }

    /// `self` is `prev` with the cursor moved `by` bytes on; nothing else
    /// differs.
    spec fn moved(&self, prev: &Scanner, by: int) -> bool {
        &&& self.codes == prev.codes
        &&& self.start == prev.start
        &&& self.line == prev.line
        &&& self.current == prev.current + by
    }

    /// Whether `codes` can be scanned: whether it has no more line feeds than
    /// the line counter can count.
    pub fn accepts(codes: &str) -> (yes: bool)
        ensures
            yes == (newlines(codes.spec_bytes(), codes.spec_bytes().len() as int) <= i32::MAX),
    {
        let bytes = codes.as_bytes();
        let mut count: usize = 0;
        let mut i: usize = 0;
        while i < bytes.len()
            invariant
                i <= bytes@.len(),
                count == newlines(bytes@, i as int),
                count <= i,
            decreases bytes@.len() - i,
        {
            if bytes[i] == '\n' as u8 {
                count += 1;
            }
            i += 1;
        }
        count <= 0x7fff_ffff
    }

    /// Binds `codes` as the source and puts the cursor at its start, on
    /// line 0. What was bound before is dropped.
    pub fn init(&mut self, codes: String)
        requires
            newlines(encode_utf8(codes@), encode_utf8(codes@).len() as int) <= i32::MAX,
        ensures
            final(self).source() == encode_utf8(codes@),
            final(self).cursor() == 0,
            final(self).origin() == 0,
            final(self).row() == 0,
            final(self).wf(),
    {
        self.start = 0;
        self.current = 0;
        self.line = 0;
        self.codes = codes;
    }

    /// The bytes of the source text.
    pub fn bytes(&self) -> (bytes: &[u8])
        ensures
            bytes@ == self.source(),
    {
        self.codes.as_str().as_bytes()
    }

    #[inline]
    fn is_at_end(&self) -> (yes: bool)
        ensures
            yes == (self.current == self.source().len()),
            self.source().len() <= usize::MAX,
    {
        self.current == self.codes.as_str().as_bytes().len()
    }

    fn make_token(&self, tokentype: TokenType) -> (tok: Token)
        requires
            self.start <= self.current,
        ensures
            tok == (Token {
                ty: tokentype,
                start: self.start,
                length: (self.current - self.start) as usize,
                line: self.line,
            }),
    {
        Token {
            ty: tokentype,
            start: self.start,
            length: self.current - self.start,
            line: self.line,
        }
    }

    fn error_token(&self) -> (tok: Token)
        ensures
            tok == (Token { ty: TokenType::error, start: 0, length: 0, line: self.line }),
    {
        Token { ty: TokenType::error, start: 0, length: 0, line: self.line }
    }

    fn advance(&mut self) -> (ch: u8)
        requires
            old(self).current < old(self).source().len(),
        ensures
            final(self).moved(old(self), 1),
            ch == old(self).source()[old(self).current as int],
    {
        let bytes = self.codes.as_str().as_bytes();
        let ch = bytes[self.current];
        assert(self.current < bytes.len());
        self.current += 1;
        ch
    }

    fn matched(&mut self, expected: u8) -> (yes: bool)
        requires
            old(self).current <= old(self).source().len(),
        ensures
            yes == (old(self).current < old(self).source().len() && old(self).source()[old(
                self,
            ).current as int] == expected),
            final(self).moved(old(self), if yes { 1 } else { 0 }),
    {
        if self.is_at_end() {
            return false;
        }
        if self.codes.as_str().as_bytes()[self.current] == expected {
            self.current += 1;
            return true;
        }
        return false;
    }

    fn peek(&self) -> (ch: u8)
        ensures
            ch == byte_at(self.source(), self.current as int),
    {
        let bytes = self.codes.as_str().as_bytes();
        if self.current < bytes.len() {
            bytes[self.current]
        } else {
            0
        }
    }

    fn peek_next(&self) -> (ch: u8)
        ensures
            ch == byte_at(self.source(), self.current + 1),
    {
        let bytes = self.codes.as_str().as_bytes();
        if self.current < bytes.len() && self.current + 1 < bytes.len() {
            bytes[self.current + 1]
        } else {
            0
        }
    }

    fn skip_whitespace(&mut self)
        requires
            old(self).wf(),
        ensures
            final(self).wf(),
            final(self).codes == old(self).codes,
            final(self).start == old(self).start,
            final(self).current == blank_end(old(self).source(), old(self).current as int),
    {
        let ghost src = self.source();
        loop
            invariant
                self.wf(),
                self.codes == old(self).codes,
                self.start == old(self).start,
                src == self.source(),
                blank_end(src, self.current as int) == blank_end(src, old(self).current as int),
            ensures
                self.wf(),
                self.codes == old(self).codes,
                self.start == old(self).start,
                self.current == blank_end(src, old(self).current as int),
            decreases src.len() - self.current,
        {
            let ch = self.peek();
            if ch == ' ' as u8 || ch == '\r' as u8 || ch == '\t' as u8 {
                self.advance();
            } else if ch == '\n' as u8 {
                proof {
                    lemma_newlines_monotonic(src, self.current + 1, src.len() as int);
                }
                self.line += 1;
                self.advance();
            } else if ch == '/' as u8 {
                if self.peek_next() == '/' as u8 {
                    let ghost from = self.current as int;
                    while self.peek() != '\n' as u8 && !self.is_at_end()
                        invariant
                            self.wf(),
                            self.codes == old(self).codes,
                            self.start == old(self).start,
                            src == self.source(),
                            from <= self.current,
                            run_end(src, self.current as int, Class::comment) == run_end(
                                src,
                                from,
                                Class::comment,
                            ),
                        decreases src.len() - self.current,
                    {
                        self.advance();
                    }
                    proof {
                        lemma_run_end(src, from + 1, Class::comment);
                    }
                } else {
                    break ;
                }
            } else {
                break ;
            }
        }
    }

    fn string(&mut self) -> (tok: Token)
        requires
            old(self).wf(),
            old(self).start < old(self).current,
        ensures
            final(self).wf(),
            final(self).codes == old(self).codes,
            final(self).start == old(self).start,
            ({
                let src = old(self).source();
                let close = run_end(src, old(self).current as int, Class::text);
                if close < src.len() {
                    &&& final(self).current == close + 1
                    &&& tok == final(self).spec_token(TokenType::string)
                } else {
                    &&& final(self).current == close
                    &&& tok == (Token {
                        ty: TokenType::error,
                        start: 0,
                        length: 0,
                        line: final(self).line,
                    })
                }
            }),
    {
        let ghost src = self.source();
        while self.peek() != '"' as u8 && !self.is_at_end()
            invariant
                self.wf(),
                self.codes == old(self).codes,
                self.start == old(self).start,
                src == self.source(),
                old(self).current <= self.current,
                run_end(src, self.current as int, Class::text) == run_end(
                    src,
                    old(self).current as int,
                    Class::text,
                ),
            decreases src.len() - self.current,
        {
            if self.peek() == '\n' as u8 {
                proof {
                    lemma_newlines_monotonic(src, self.current + 1, src.len() as int);
                }
                self.line += 1;
            }
            self.advance();
        }

        if self.is_at_end() {
            return self.error_token();
        }
        self.advance();
        return self.make_token(TokenType::string);
    }

    fn number(&mut self) -> (tok: Token)
        requires
            old(self).wf(),
            old(self).start < old(self).current,
        ensures
            final(self).wf(),
            final(self).codes == old(self).codes,
            final(self).start == old(self).start,
            final(self).current == number_end(old(self).source(), old(self).current as int),
            tok == final(self).spec_token(TokenType::number),
    {
        let ghost src = self.source();
        while is_digit(self.peek())
            invariant
                self.wf(),
                self.codes == old(self).codes,
                self.start == old(self).start,
                src == self.source(),
                old(self).current <= self.current,
                run_end(src, self.current as int, Class::digit) == run_end(
                    src,
                    old(self).current as int,
                    Class::digit,
                ),
            decreases src.len() - self.current,
        {
            self.advance();
        }

        if self.peek() == '.' as u8 && is_digit(self.peek_next()) {
            self.advance();
            let ghost fraction = self.current as int;
            while is_digit(self.peek())
                invariant
                    self.wf(),
                    self.codes == old(self).codes,
                    self.start == old(self).start,
                    src == self.source(),
                    fraction <= self.current,
                    run_end(src, self.current as int, Class::digit) == run_end(
                        src,
                        fraction,
                        Class::digit,
                    ),
                decreases src.len() - self.current,
            {
                self.advance();
            }
        }
        return self.make_token(TokenType::number);
    }

    /// Whether the bytes from the token's start to the cursor spell `word`.
    fn lexeme_is(&self, word: &str) -> (yes: bool)
        requires
            self.start <= self.current <= self.source().len(),
        ensures
            yes == (self.source().subrange(self.start as int, self.current as int)
                == word.spec_bytes()),
    {
        let bytes = self.codes.as_str().as_bytes();
        let letters = word.as_bytes();
        if self.current - self.start != letters.len() {
            return false;
        }
        let ghost lexeme = bytes@.subrange(self.start as int, self.current as int);
        let mut i: usize = 0;
        while i < letters.len()
            invariant
                self.start <= self.current <= bytes@.len(),
                self.current - self.start == letters@.len(),
                lexeme == bytes@.subrange(self.start as int, self.current as int),
                bytes@ == self.source(),
                letters@ == word.spec_bytes(),
                i <= letters@.len(),
                forall|j: int| 0 <= j < i ==> lexeme[j] == letters@[j],
            decreases letters@.len() - i,
        {
            if bytes[self.start + i] != letters[i] {
                assert(lexeme[i as int] != letters@[i as int]);
                return false;
            }
            i += 1;
        }
        assert(lexeme =~= letters@);
        true
    }

    fn identifier_type(&self) -> (ty: TokenType)
        requires
            self.start <= self.current <= self.source().len(),
        ensures
            ty == keyword(self.source().subrange(self.start as int, self.current as int)),
    {
        if self.lexeme_is("and") {
            TokenType::and
        } else if self.lexeme_is("class") {
            TokenType::class
        } else if self.lexeme_is("else") {
            TokenType::else_
        } else if self.lexeme_is("false") {
            TokenType::false_
        } else if self.lexeme_is("fun") {
            TokenType::fun
        } else if self.lexeme_is("for") {
            TokenType::for_
        } else if self.lexeme_is("if") {
            TokenType::if_
        } else if self.lexeme_is("nil") {
            TokenType::nil
        } else if self.lexeme_is("or") {
            TokenType::or
        } else if self.lexeme_is("print") {
            TokenType::print
        } else if self.lexeme_is("return") {
            TokenType::return_
        } else if self.lexeme_is("super") {
            TokenType::super_
        } else if self.lexeme_is("this") {
            TokenType::this
        } else if self.lexeme_is("true") {
            TokenType::true_
        } else if self.lexeme_is("var") {
            TokenType::var
        } else if self.lexeme_is("while") {
            TokenType::while_
        } else {
            TokenType::identifier
        }
    }

    fn identifier(&mut self) -> (tok: Token)
        requires
            old(self).wf(),
            old(self).start < old(self).current,
        ensures
            final(self).wf(),
            final(self).codes == old(self).codes,
            final(self).start == old(self).start,
            final(self).current == run_end(
                old(self).source(),
                old(self).current as int,
                Class::word,
            ),
            tok == final(self).spec_token(
                keyword(
                    old(self).source().subrange(
                        final(self).start as int,
                        final(self).current as int,
                    ),
                ),
            ),
    {
        let ghost src = self.source();
        while is_alpha(self.peek()) || is_digit(self.peek())
            invariant
                self.wf(),
                self.codes == old(self).codes,
                self.start == old(self).start,
                src == self.source(),
                old(self).current <= self.current,
                run_end(src, self.current as int, Class::word) == run_end(
                    src,
                    old(self).current as int,
                    Class::word,
                ),
            decreases src.len() - self.current,
        {
            self.advance();
        }
        let identifier_type = self.identifier_type();
        return self.make_token(identifier_type);
    }

    /// The token that `make_token` builds from the current state.
    spec fn spec_token(&self, ty: TokenType) -> Token {
        Token {
            ty,
            start: self.start,
            length: (self.current - self.start) as usize,
            line: self.line,
        }
    }

    /// Skips blanks and comments, reads one token and returns it. The cursor
    /// is left behind the token, so that the next call finds the next one; at
    /// the end of the source every call returns `eof`. A lexical error is
    /// returned as a token of type `error`, on the line where it was found.
    pub fn scan_token(&mut self) -> (tok: Token)
        requires
            old(self).wf(),
        ensures
            final(self).wf(),
            final(self).source() == old(self).source(),
            tok == token_at(old(self).source(), old(self).cursor()),
            final(self).cursor() == cursor_after(old(self).source(), old(self).cursor()),
            final(self).origin() == blank_end(old(self).source(), old(self).cursor()),
    {
        self.skip_whitespace();
        self.start = self.current;
        proof {
            lemma_blank_end(old(self).source(), old(self).cursor());
        }
        if self.is_at_end() {
            return self.make_token(TokenType::eof);
        }
        let ch = self.advance();
        assert(self.row() == newlines(self.source(), self.cursor()));

        if is_alpha(ch) {
            return self.identifier();
        }
        if is_digit(ch) {
            return self.number();
        }
        match ch as char {
            '(' => return self.make_token(TokenType::left_paren),
            ')' => return self.make_token(TokenType::right_paren),
            '{' => return self.make_token(TokenType::left_brace),
            '}' => return self.make_token(TokenType::right_brace),
            ';' => return self.make_token(TokenType::semicolon),
            ',' => return self.make_token(TokenType::comma),
            '.' => return self.make_token(TokenType::dot),
            '-' => return self.make_token(TokenType::minus),
            '+' => return self.make_token(TokenType::plus),
            '/' => return self.make_token(TokenType::slash),
            '*' => return self.make_token(TokenType::star),
            '!' => {
                if self.matched('=' as u8) {
                    return self.make_token(TokenType::bang_equal);
                } else {
                    return self.make_token(TokenType::bang);
                }
            },
            '=' => {
                if self.matched('=' as u8) {
                    return self.make_token(TokenType::equal_equal);
                } else {
                    return self.make_token(TokenType::equal);
                }
            },
            '<' => {
                if self.matched('=' as u8) {
                    return self.make_token(TokenType::less_equal);
                } else {
                    return self.make_token(TokenType::less);
                }
            },
            '>' => {
                if self.matched('=' as u8) {
                    return self.make_token(TokenType::greater_equal);
                } else {
                    return self.make_token(TokenType::greater);
                }
            },
            '"' => return self.string(),
            _ => return self.error_token(),
        }
    }
}

impl Default for Scanner {
    /// A scanner over the empty text.
    fn default() -> (scanner: Scanner)
        ensures
            scanner.source() == Seq::<u8>::empty(),
            scanner.cursor() == 0,
            scanner.wf(),
    {
        Scanner { start: 0, current: 0, line: 0, codes: String::new() }
    }
}

} // verus!
