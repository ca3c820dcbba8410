//! Tokens: the lexical categories and the span that a token covers.
use vstd::prelude::*;

verus! {

/// The lexical category of a token.
#[derive(Debug, Clone, Copy, PartialEq, Eq, Structural)]
pub enum TokenType {
    // single character tokens
    left_paren,
    right_paren,
    left_brace,
    right_brace,
    comma,
    dot,
    minus,
    plus,
    semicolon,
    slash,
    star,
    // one or two character tokens
    bang,
    bang_equal,
    equal,
    equal_equal,
    greater,
    greater_equal,
    less,
    less_equal,
    // literals
    identifier,
    string,
    number,
    // keywords
    and,
    class,
    else_,
    false_,
    for_,
    fun,
    if_,
    nil,
    or,
    print,
    return_,
    super_,
    this,
    true_,
    var,
    while_,
    // lexical error and end of input
    error,
    eof,
}

impl TokenType {
    /// The position of the category in the declaration above, counted from 0.
    pub open spec fn spec_code(self) -> u8 {
        match self {
            TokenType::left_paren => 0,
            TokenType::right_paren => 1,
            TokenType::left_brace => 2,
            TokenType::right_brace => 3,
            TokenType::comma => 4,
            TokenType::dot => 5,
            TokenType::minus => 6,
            TokenType::plus => 7,
            TokenType::semicolon => 8,
            TokenType::slash => 9,
            TokenType::star => 10,
            TokenType::bang => 11,
            TokenType::bang_equal => 12,
            TokenType::equal => 13,
            TokenType::equal_equal => 14,
            TokenType::greater => 15,
            TokenType::greater_equal => 16,
            TokenType::less => 17,
            TokenType::less_equal => 18,
            TokenType::identifier => 19,
            TokenType::string => 20,
            TokenType::number => 21,
            TokenType::and => 22,
            TokenType::class => 23,
            TokenType::else_ => 24,
            TokenType::false_ => 25,
            TokenType::for_ => 26,
            TokenType::fun => 27,
            TokenType::if_ => 28,
            TokenType::nil => 29,
            TokenType::or => 30,
            TokenType::print => 31,
            TokenType::return_ => 32,
            TokenType::super_ => 33,
            TokenType::this => 34,
            TokenType::true_ => 35,
            TokenType::var => 36,
            TokenType::while_ => 37,
            TokenType::error => 38,
            TokenType::eof => 39,
        }
    }

    /// The number under which a token listing shows the category.
    #[verifier::when_used_as_spec(spec_code)]
    pub fn code(self) -> (n: u8)
        ensures
            n == self.spec_code(),
    {
        match self {
            TokenType::left_paren => 0,
            TokenType::right_paren => 1,
            TokenType::left_brace => 2,
            TokenType::right_brace => 3,
            TokenType::comma => 4,
            TokenType::dot => 5,
            TokenType::minus => 6,
            TokenType::plus => 7,
            TokenType::semicolon => 8,
            TokenType::slash => 9,
            TokenType::star => 10,
            TokenType::bang => 11,
            TokenType::bang_equal => 12,
            TokenType::equal => 13,
            TokenType::equal_equal => 14,
            TokenType::greater => 15,
            TokenType::greater_equal => 16,
            TokenType::less => 17,
            TokenType::less_equal => 18,
            TokenType::identifier => 19,
            TokenType::string => 20,
            TokenType::number => 21,
            TokenType::and => 22,
            TokenType::class => 23,
            TokenType::else_ => 24,
            TokenType::false_ => 25,
            TokenType::for_ => 26,
            TokenType::fun => 27,
            TokenType::if_ => 28,
            TokenType::nil => 29,
            TokenType::or => 30,
            TokenType::print => 31,
            TokenType::return_ => 32,
            TokenType::super_ => 33,
            TokenType::this => 34,
            TokenType::true_ => 35,
            TokenType::var => 36,
            TokenType::while_ => 37,
            TokenType::error => 38,
            TokenType::eof => 39,
        }
    }
}

/// A classified span of the source text. `start` and `length` count bytes of
/// the source; `line` counts the line breaks before the end of the span, so
/// the first line is line 0. An `error` token carries no span: its `start`
/// and `length` are 0.
#[derive(Debug, Clone, Copy, PartialEq, Eq, Structural)]
pub struct Token {
    pub ty: TokenType,
    pub start: usize,
    pub length: usize,
    pub line: i32,
}

} // verus!
