//! The token model: a closed set of lexical categories plus the literal text
//! matched. Tokens are immutable value objects produced by the lexer and
//! consumed by the parser.

use vstd::prelude::*;
use vstd::string::StringExecFns;

verus! {

/// The closed set of lexical categories.
#[derive(Clone, Copy, PartialEq, Eq, Structural, Debug)]
pub enum TokenType {
    Illegal,
    EOF,
    Ident,
    Int,
    Assign,
    Plus,
    Minus,
    Bang,
    Asterisk,
    Slash,
    LT,
    GT,
    Eq,
    NotEq,
    Comma,
    Semicolon,
    LeftParen,
    RightParen,
    LeftBrace,
    RightBrace,
    Function,
    Let,
    True,
    False,
    If,
    Else,
    Return,
}

/// A token: its category and the literal text that was matched.
#[derive(Clone, Debug, PartialEq)]
pub struct Token {
    pub t: TokenType,
    pub literal: String,
}

/// The mathematical value of a token: its category and the matched text as a
/// sequence of characters.
pub struct TokenModel {
    pub t: TokenType,
    pub lit: Seq<char>,
}

impl View for Token {
    type V = TokenModel;

    open spec fn view(&self) -> TokenModel {
        TokenModel { t: self.t, lit: self.literal@ }
    }
}

impl DeepView for Token {
    type V = TokenModel;

    open spec fn deep_view(&self) -> TokenModel {
        self@
    }
}

/// The keyword table: the category of an identifier run. Lookup is
/// exact-match only; any text that is not exactly one of the keywords is an
/// ordinary identifier.
pub open spec fn keyword_kind(lit: Seq<char>) -> TokenType {
    if lit == "fn"@ {
        TokenType::Function
    } else if lit == "let"@ {
        TokenType::Let
    } else if lit == "true"@ {
        TokenType::True
    } else if lit == "false"@ {
        TokenType::False
    } else if lit == "if"@ {
        TokenType::If
    } else if lit == "else"@ {
        TokenType::Else
    } else if lit == "return"@ {
        TokenType::Return
    } else {
        TokenType::Ident
    }
}

/// Keyword lookup is exact-match only: an identifier run is classified as
/// a keyword exactly when its text equals that keyword letter for letter,
/// and any other text is an ordinary identifier.
pub proof fn lemma_keyword_lookup_exact(lit: Seq<char>)
    ensures
        (keyword_kind(lit) == TokenType::Function) <==> lit == "fn"@,
        (keyword_kind(lit) == TokenType::Let) <==> lit == "let"@,
        (keyword_kind(lit) == TokenType::True) <==> lit == "true"@,
        (keyword_kind(lit) == TokenType::False) <==> lit == "false"@,
        (keyword_kind(lit) == TokenType::If) <==> lit == "if"@,
        (keyword_kind(lit) == TokenType::Else) <==> lit == "else"@,
        (keyword_kind(lit) == TokenType::Return) <==> lit == "return"@,
        keyword_kind(lit) == TokenType::Ident || lit == "fn"@ || lit == "let"@ || lit == "true"@
            || lit == "false"@ || lit == "if"@ || lit == "else"@ || lit == "return"@,
{
    broadcast use vstd::string::group_string_axioms;

    reveal_strlit("fn");
    reveal_strlit("let");
    reveal_strlit("true");
    reveal_strlit("false");
    reveal_strlit("if");
    reveal_strlit("else");
    reveal_strlit("return");
    assert("fn"@.len() == 2);
    assert("let"@.len() == 3);
    assert("true"@.len() == 4);
    assert("false"@.len() == 5);
    assert("if"@.len() == 2);
    assert("else"@.len() == 4);
    assert("return"@.len() == 6);
    assert("fn"@[0] == 'f' && "if"@[0] == 'i');
    assert("true"@[0] == 't' && "else"@[0] == 'e');
}

/// Looks the text of an identifier run up against the fixed keyword table.
pub fn lookup_ident(literal: &String) -> (t: TokenType)
    ensures
        t == keyword_kind(literal@),
{
    if *literal == String::from_str("fn") {
        TokenType::Function
    } else if *literal == String::from_str("let") {
        TokenType::Let
    } else if *literal == String::from_str("true") {
        TokenType::True
    } else if *literal == String::from_str("false") {
        TokenType::False
    } else if *literal == String::from_str("if") {
        TokenType::If
    } else if *literal == String::from_str("else") {
        TokenType::Else
    } else if *literal == String::from_str("return") {
        TokenType::Return
    } else {
        TokenType::Ident
    }
}

} // verus!
