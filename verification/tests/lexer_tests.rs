use monkey_rs::lexer::Lexer;
use monkey_rs::token::{Token, TokenType};

#[test]
fn it_works() {
    let input = r"let five = 5;
let ten = 10;

let add = fn(x, y) {
  x + y;
};

let result = add(five, ten);
!-/*5;
5 < 10 > 5;

if (5 < 10) {
	return true;
} else {
	return false;
}

10 == 10;
10 != 9;"
        .to_string();
    let mut lexer = Lexer::new(input);

    let tests = vec![
        Token {
            t: TokenType::Let,
            literal: "let".to_string(),
        },
        Token {
            t: TokenType::Ident,
            literal: "five".to_string(),
        },
        Token {
            t: TokenType::Assign,
            literal: "=".to_string(),
        },
        Token {
            t: TokenType::Int,
            literal: "5".to_string(),
        },
        Token {
            t: TokenType::Semicolon,
            literal: ";".to_string(),
        },
        Token {
            t: TokenType::Let,
            literal: "let".to_string(),
        },
        Token {
            t: TokenType::Ident,
            literal: "ten".to_string(),
        },
        Token {
            t: TokenType::Assign,
            literal: "=".to_string(),
        },
        Token {
            t: TokenType::Int,
            literal: "10".to_string(),
        },
        Token {
            t: TokenType::Semicolon,
            literal: ";".to_string(),
        },
        Token {
            t: TokenType::Let,
            literal: "let".to_string(),
        },
        Token {
            t: TokenType::Ident,
            literal: "add".to_string(),
        },
        Token {
            t: TokenType::Assign,
            literal: "=".to_string(),
        },
        Token {
            t: TokenType::Function,
            literal: "fn".to_string(),
        },
        Token {
            t: TokenType::LeftParen,
            literal: "(".to_string(),
        },
        Token {
            t: TokenType::Ident,
            literal: "x".to_string(),
        },
        Token {
            t: TokenType::Comma,
            literal: ",".to_string(),
        },
        Token {
            t: TokenType::Ident,
            literal: "y".to_string(),
        },
        Token {
            t: TokenType::RightParen,
            literal: ")".to_string(),
        },
        Token {
            t: TokenType::LeftBrace,
            literal: "{".to_string(),
        },
        Token {
            t: TokenType::Ident,
            literal: "x".to_string(),
        },
        Token {
            t: TokenType::Plus,
            literal: "+".to_string(),
        },
        Token {
            t: TokenType::Ident,
            literal: "y".to_string(),
        },
        Token {
            t: TokenType::Semicolon,
            literal: ";".to_string(),
        },
        Token {
            t: TokenType::RightBrace,
            literal: "}".to_string(),
        },
        Token {
            t: TokenType::Semicolon,
            literal: ";".to_string(),
        },
        Token {
            t: TokenType::Let,
            literal: "let".to_string(),
        },
        Token {
            t: TokenType::Ident,
            literal: "result".to_string(),
        },
        Token {
            t: TokenType::Assign,
            literal: "=".to_string(),
        },
        Token {
            t: TokenType::Ident,
            literal: "add".to_string(),
        },
        Token {
            t: TokenType::LeftParen,
            literal: "(".to_string(),
        },
        Token {
            t: TokenType::Ident,
            literal: "five".to_string(),
        },
        Token {
            t: TokenType::Comma,
            literal: ",".to_string(),
        },
        Token {
            t: TokenType::Ident,
            literal: "ten".to_string(),
        },
        Token {
            t: TokenType::RightParen,
            literal: ")".to_string(),
        },
        Token {
            t: TokenType::Semicolon,
            literal: ";".to_string(),
        },
        Token {
            t: TokenType::Bang,
            literal: "!".to_string(),
        },
        Token {
            t: TokenType::Minus,
            literal: "-".to_string(),
        },
        Token {
            t: TokenType::Slash,
            literal: "/".to_string(),
        },
        Token {
            t: TokenType::Asterisk,
            literal: "*".to_string(),
        },
        Token {
            t: TokenType::Int,
            literal: "5".to_string(),
        },
        Token {
            t: TokenType::Semicolon,
            literal: ";".to_string(),
        },
        Token {
            t: TokenType::Int,
            literal: "5".to_string(),
        },
        Token {
            t: TokenType::LT,
            literal: "<".to_string(),
        },
        Token {
            t: TokenType::Int,
            literal: "10".to_string(),
        },
        Token {
            t: TokenType::GT,
            literal: ">".to_string(),
        },
        Token {
            t: TokenType::Int,
            literal: "5".to_string(),
        },
        Token {
            t: TokenType::Semicolon,
            literal: ";".to_string(),
        },
        Token {
            t: TokenType::If,
            literal: "if".to_string(),
        },
        Token {
            t: TokenType::LeftParen,
            literal: "(".to_string(),
        },
        Token {
            t: TokenType::Int,
            literal: "5".to_string(),
        },
        Token {
            t: TokenType::LT,
            literal: "<".to_string(),
        },
        Token {
            t: TokenType::Int,
            literal: "10".to_string(),
        },
        Token {
            t: TokenType::RightParen,
            literal: ")".to_string(),
        },
        Token {
            t: TokenType::LeftBrace,
            literal: "{".to_string(),
        },
        Token {
            t: TokenType::Return,
            literal: "return".to_string(),
        },
        Token {
            t: TokenType::True,
            literal: "true".to_string(),
        },
        Token {
            t: TokenType::Semicolon,
            literal: ";".to_string(),
        },
        Token {
            t: TokenType::RightBrace,
            literal: "}".to_string(),
        },
        Token {
            t: TokenType::Else,
            literal: "else".to_string(),
        },
        Token {
            t: TokenType::LeftBrace,
            literal: "{".to_string(),
        },
        Token {
            t: TokenType::Return,
            literal: "return".to_string(),
        },
        Token {
            t: TokenType::False,
            literal: "false".to_string(),
        },
        Token {
            t: TokenType::Semicolon,
            literal: ";".to_string(),
        },
        Token {
            t: TokenType::RightBrace,
            literal: "}".to_string(),
        },
        Token {
            t: TokenType::Int,
            literal: "10".to_string(),
        },
        Token {
            t: TokenType::Eq,
            literal: "==".to_string(),
        },
        Token {
            t: TokenType::Int,
            literal: "10".to_string(),
        },
        Token {
            t: TokenType::Semicolon,
            literal: ";".to_string(),
        },
        Token {
            t: TokenType::Int,
            literal: "10".to_string(),
        },
        Token {
            t: TokenType::NotEq,
            literal: "!=".to_string(),
        },
        Token {
            t: TokenType::Int,
            literal: "9".to_string(),
        },
        Token {
            t: TokenType::Semicolon,
            literal: ";".to_string(),
        },
        Token {
            t: TokenType::EOF,
            literal: "".to_string(),
        },
    ];

    for test_token in tests {
        let current_token = lexer.next_token();
        assert_eq!(current_token, test_token);
    }
}

fn collect_tokens(input: &str) -> Vec<Token> {
    let mut lexer = Lexer::new(input.to_string());
    let mut tokens = Vec::new();
    loop {
        let tok = lexer.next_token();
        let done = tok.t == TokenType::EOF;
        tokens.push(tok);
        if done {
            break;
        }
    }
    tokens
}

#[test]
fn two_char_operators_need_equals_sign() {
    let tokens = collect_tokens("=x == !y != = !");
    let expected = vec![
        (TokenType::Assign, "="),
        (TokenType::Ident, "x"),
        (TokenType::Eq, "=="),
        (TokenType::Bang, "!"),
        (TokenType::Ident, "y"),
        (TokenType::NotEq, "!="),
        (TokenType::Assign, "="),
        (TokenType::Bang, "!"),
        (TokenType::EOF, ""),
    ];
    assert_eq!(tokens.len(), expected.len());
    for (tok, (t, literal)) in tokens.iter().zip(expected.iter()) {
        assert_eq!(tok.t, *t);
        assert_eq!(tok.literal, *literal);
    }
}

#[test]
fn keyword_lookup_is_exact_match_only() {
    let tokens = collect_tokens("lettuce let fnord returned");
    assert_eq!(tokens[0].t, TokenType::Ident);
    assert_eq!(tokens[0].literal, "lettuce");
    assert_eq!(tokens[1].t, TokenType::Let);
    assert_eq!(tokens[1].literal, "let");
    assert_eq!(tokens[2].t, TokenType::Ident);
    assert_eq!(tokens[2].literal, "fnord");
    assert_eq!(tokens[3].t, TokenType::Ident);
    assert_eq!(tokens[3].literal, "returned");
    assert_eq!(tokens[4].t, TokenType::EOF);
}

#[test]
fn token_literals_partition_the_input() {
    let input = "let x\t= 5;\nreturn !x != y;\r\n@";
    let tokens = collect_tokens(input);
    let mut concatenated = String::new();
    for tok in &tokens {
        concatenated.push_str(&tok.literal);
    }
    let without_whitespace: String = input
        .chars()
        .filter(|c| *c != ' ' && *c != '\t' && *c != '\n' && *c != '\r')
        .collect();
    assert_eq!(concatenated, without_whitespace);
}

#[test]
fn end_of_input_token_repeats() {
    let mut lexer = Lexer::new(" \t\r\n".to_string());
    let first = lexer.next_token();
    assert_eq!(first.t, TokenType::EOF);
    assert_eq!(first.literal, "");
    let second = lexer.next_token();
    assert_eq!(second.t, TokenType::EOF);
    assert_eq!(second.literal, "");
}

#[test]
fn illegal_character_becomes_illegal_token() {
    let tokens = collect_tokens("@#");
    assert_eq!(tokens[0].t, TokenType::Illegal);
    assert_eq!(tokens[0].literal, "@");
    assert_eq!(tokens[1].t, TokenType::Illegal);
    assert_eq!(tokens[1].literal, "#");
    assert_eq!(tokens[2].t, TokenType::EOF);
}

#[test]
fn identifiers_take_letters_and_underscores_only() {
    let tokens = collect_tokens("_foo a1");
    assert_eq!(tokens[0].t, TokenType::Ident);
    assert_eq!(tokens[0].literal, "_foo");
    assert_eq!(tokens[1].t, TokenType::Ident);
    assert_eq!(tokens[1].literal, "a");
    assert_eq!(tokens[2].t, TokenType::Int);
    assert_eq!(tokens[2].literal, "1");
    assert_eq!(tokens[3].t, TokenType::EOF);
}
