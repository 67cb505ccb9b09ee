use monkey_rs::ast::{Expression, Node, Program, Statement};
use monkey_rs::lexer::Lexer;
use monkey_rs::parser::Parser;

fn check_parser_errors(parser: &Parser) {
    if parser.errors.len() > 0 {
        for e in &parser.errors {
            println!("{}", e);
        }
        panic!("parser error");
    }
}

fn parse(input: &str) -> (Program, Vec<String>) {
    let mut lexer = Lexer::new(input.to_string());
    let mut parser = Parser::new(&mut lexer);
    let program = parser.parse_program().unwrap();
    (program, parser.errors)
}

#[test]
fn let_statement() {
    let input = "
let x = 5;
let y = 10;
let foobar = 838383;
        ";

    let mut lexer = Lexer::new(input.to_string());
    let mut parser = Parser::new(&mut lexer);
    let program = parser.parse_program().unwrap();
    check_parser_errors(&parser);

    assert_eq!(program.statements.len(), 3);

    if let Statement::Let { ref name, .. } = program.statements[0] {
        assert_eq!(name.literal, "x");
    } else {
        panic!("expected let statement");
    }

    if let Statement::Let { ref name, .. } = program.statements[1] {
        assert_eq!(name.literal, "y");
    } else {
        panic!("expected let statement");
    }

    if let Statement::Let { ref name, .. } = program.statements[2] {
        assert_eq!(name.literal, "foobar");
    } else {
        panic!("expected let statement");
    }
}

#[test]
fn return_statement() {
    let input = "
return 5;
return 10;
return 993322;
        ";

    let mut lexer = Lexer::new(input.into());
    let mut parser = Parser::new(&mut lexer);
    let program = parser.parse_program().unwrap();
    check_parser_errors(&parser);

    assert_eq!(program.statements.len(), 3);

    for i in 0..3 {
        if let Statement::Return { ref token, .. } = program.statements[i] {
            assert_eq!(token.literal, "return");
        } else {
            panic!("expected return statement");
        }
    }
}

#[test]
fn identifier_expression() {
    let input = "foobar;";

    let mut lexer = Lexer::new(input.into());
    let mut parser = Parser::new(&mut lexer);
    let program = parser.parse_program().unwrap();
    check_parser_errors(&parser);

    assert_eq!(program.statements.len(), 1);

    if let Statement::Expression { ref expression, .. } = &program.statements[0] {
        if let Expression::Identifier { ref value, .. } = expression {
            if value != "foobar" {
                panic!("expected foobar");
            }
        } else {
            panic!("expected identifier");
        }
    } else {
        panic!("expected expression statement");
    }
}

#[test]
fn integer_literal_expression() {
    let input = "55;";

    let mut lexer = Lexer::new(input.into());
    let mut parser = Parser::new(&mut lexer);
    let program = parser.parse_program().unwrap();
    check_parser_errors(&parser);

    assert_eq!(program.statements.len(), 1);

    if let Statement::Expression { ref expression, .. } = &program.statements[0] {
        if let Expression::IntegerLiteral { value, .. } = expression {
            if value != &55 {
                panic!();
            }
        } else {
            panic!();
        }
    } else {
        panic!();
    }
}

#[test]
fn prefix_operator() {
    let tests = vec![("!5;", "!", 5), ("-15;", "-", 15)];

    for test in tests.iter() {
        let (ref input, ref expected_operator, expected_value) = test;

        let mut lexer = Lexer::new(input.to_string());
        let mut parser = Parser::new(&mut lexer);
        let program = parser.parse_program().unwrap();
        check_parser_errors(&parser);

        assert_eq!(program.statements.len(), 1);

        if let Statement::Expression { ref expression, .. } = program.statements[0] {
            if let Expression::Prefix {
                ref operator,
                ref right,
                ..
            } = expression
            {
                assert_eq!(operator, expected_operator);
                if let Expression::IntegerLiteral { value, .. } = **right {
                    assert_eq!(value, *expected_value);
                } else {
                    panic!();
                }
            } else {
                panic!();
            }
        } else {
            panic!();
        }
    }
}

#[test]
fn infix_expression() {
    let tests = vec![
        ("5 + 5;", 5, "+", 5),
        ("5 - 5;", 5, "-", 5),
        ("5 * 5;", 5, "*", 5),
        ("5 / 5;", 5, "/", 5),
        ("5 > 5;", 5, ">", 5),
        ("5 < 5;", 5, "<", 5),
        ("5 == 5;", 5, "==", 5),
        ("5 != 5;", 5, "!=", 5),
    ];

    for (ref input, expected_left_operand, ref expected_operator, expected_right_operand) in tests
    {
        let mut lexer = Lexer::new(input.to_string());
        let mut parser = Parser::new(&mut lexer);
        let program = parser.parse_program().unwrap();
        check_parser_errors(&parser);

        assert_eq!(program.statements.len(), 1);

        if let Statement::Expression { ref expression, .. } = program.statements[0] {
            if let Expression::Infix {
                ref operator,
                ref left,
                ref right,
                ..
            } = expression
            {
                assert_eq!(operator, expected_operator);
                if let Expression::IntegerLiteral { value, .. } = **left {
                    assert_eq!(value, expected_left_operand);
                } else {
                    panic!();
                }
                if let Expression::IntegerLiteral { value, .. } = **right {
                    assert_eq!(value, expected_right_operand);
                } else {
                    panic!();
                }
            } else {
                panic!();
            }
        } else {
            panic!();
        }
    }
}

fn first_expression_rendering(input: &str) -> String {
    let (program, errors) = parse(input);
    assert_eq!(errors.len(), 0);
    assert_eq!(program.statements.len(), 1);
    if let Statement::Expression { ref expression, .. } = program.statements[0] {
        expression.string()
    } else {
        panic!("expected expression statement");
    }
}

#[test]
fn prefix_binds_tighter_than_product() {
    assert_eq!(first_expression_rendering("-a * b"), "((-a) * b)");
}

#[test]
fn precedence_chain_is_rendered_canonically() {
    assert_eq!(
        first_expression_rendering("a + b * c + d / e - f"),
        "(((a + (b * c)) + (d / e)) - f)"
    );
}

#[test]
fn equal_precedence_chains_left() {
    assert_eq!(first_expression_rendering("5 < 10 > 5"), "((5 < 10) > 5)");
}

#[test]
fn program_rendering_includes_statement_terminators() {
    let (program, errors) = parse("let x = 5; return x;");
    assert_eq!(errors.len(), 0);
    assert_eq!(program.string(), "let x = 5;return x;");
}

#[test]
fn malformed_let_reports_error_and_parsing_continues() {
    let (program, errors) = parse("let = 5; let y = 10;");
    assert_eq!(errors[0], "expected next Token to be Ident, got Assign instead");
    assert_eq!(errors[1], "no prefix parse function for Assign found");
    assert_eq!(errors.len(), 2);
    // the malformed statement is omitted, the bare `5` survives as an
    // expression statement, and the following valid let is still parsed
    assert_eq!(program.statements.len(), 2);
    if let Statement::Let { ref name, .. } = program.statements[1] {
        assert_eq!(name.literal, "y");
    } else {
        panic!("expected let statement");
    }
}

#[test]
fn let_without_assign_reports_error() {
    let (program, errors) = parse("let x 5;");
    assert_eq!(errors[0], "expected next Token to be Assign, got Int instead");
    assert_eq!(errors.len(), 1);
    assert_eq!(program.statements.len(), 1);
    assert!(matches!(program.statements[0], Statement::Expression { .. }));
}

#[test]
fn integer_literal_out_of_range_reports_error() {
    let (program, errors) = parse("2147483647; 2147483648;");
    assert_eq!(errors[0], "could not parse 2147483648 as integer");
    assert_eq!(errors[1], "no prefix parse function for Semicolon found");
    assert_eq!(errors.len(), 2);
    assert_eq!(program.statements.len(), 1);
    if let Statement::Expression { ref expression, .. } = program.statements[0] {
        if let Expression::IntegerLiteral { value, .. } = expression {
            assert_eq!(*value, 2147483647);
        } else {
            panic!("expected integer literal");
        }
    } else {
        panic!("expected expression statement");
    }
}

#[test]
fn token_without_prefix_rule_reports_error() {
    let (program, errors) = parse(";");
    assert_eq!(errors.len(), 1);
    assert_eq!(errors[0], "no prefix parse function for Semicolon found");
    assert_eq!(program.statements.len(), 0);
}

#[test]
fn missing_terminator_still_terminates() {
    let (program, errors) = parse("let x = 5");
    assert_eq!(errors.len(), 0);
    assert_eq!(program.statements.len(), 1);
    if let Statement::Let { ref name, .. } = program.statements[0] {
        assert_eq!(name.literal, "x");
    } else {
        panic!("expected let statement");
    }
}

#[test]
fn let_value_is_parsed_and_attached() {
    let (program, errors) = parse("let x = 1 + 2 * 3;");
    assert_eq!(errors.len(), 0);
    assert_eq!(program.statements.len(), 1);
    assert_eq!(program.statements[0].string(), "let x = (1 + (2 * 3));");
}

#[test]
fn return_value_is_parsed_and_attached() {
    let (program, errors) = parse("return 2 * 3;");
    assert_eq!(errors.len(), 0);
    assert_eq!(program.statements.len(), 1);
    assert_eq!(program.statements[0].string(), "return (2 * 3);");
}

#[test]
fn expression_statement_semicolon_is_optional() {
    let (program, errors) = parse("foobar");
    assert_eq!(errors.len(), 0);
    assert_eq!(program.statements.len(), 1);
    if let Statement::Expression { ref expression, .. } = program.statements[0] {
        if let Expression::Identifier { ref value, .. } = expression {
            assert_eq!(value, "foobar");
        } else {
            panic!("expected identifier");
        }
    } else {
        panic!("expected expression statement");
    }
}
