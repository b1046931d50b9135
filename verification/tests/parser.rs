use script_frontend::ast::{Expression, Identifier, Procedence, Program, Statement};
use script_frontend::lexer::Lexer;
use script_frontend::parser::{
    let_error_message, peek_error_message, return_error_message, Parser,
};
use script_frontend::token::Token;

fn parser_for(source: &str) -> Parser {
    Parser::new(Lexer::new(String::from(source)))
}

fn parse(source: &str) -> (Program, Vec<String>) {
    let mut parser = parser_for(source);
    let program = parser.parse_program();
    assert_eq!(*parser.current_token(), Token::Eof);
    assert_eq!(*parser.peek_token(), Token::Eof);
    (program, parser.errors().clone())
}

fn let_of(name: &str) -> Statement {
    Statement::Let {
        name: Identifier(String::from(name)),
        value: Expression::Identifier(String::from("IDK YET")),
    }
}

fn return_of(text: &str) -> Statement {
    Statement::Return { value: Expression::Identifier(String::from(text)) }
}

fn expression_of(text: &str) -> Statement {
    Statement::ExpressionStatement { value: Expression::Identifier(String::from(text)) }
}

fn return_parser_errors(parser: &Parser) -> usize {
    for error in parser.errors() {
        println!("{}", error)
    }

    parser.errors().len()
}

fn check_parser_errors(parser: Parser) {
    assert_eq!(*parser.errors(), Vec::new() as Vec<String>)
}

#[test]
fn new_parser() {
    let input = String::from("let foobar = 5;");

    let lexer = Lexer::new(input);

    let parser = Parser::new(lexer);

    assert_eq!(*parser.current_token(), Token::Let);
    assert_eq!(*parser.peek_token(), Token::Ident(String::from("foobar")));
}

#[test]
fn let_statements() {
    let input = String::from(
        r#"
            let x = 5;
let y = 10;
let foobar = 838383;
          "#,
    );

    let lexer = Lexer::new(input);

    let mut parser = Parser::new(lexer);

    let program = parser.parse_program();

    assert_eq!(program.statements.len(), 3);

    let expected_statement_identifiers = vec![
        Identifier(String::from("x")),
        Identifier(String::from("y")),
        Identifier(String::from("foobar")),
    ];

    for (i, statement) in program.statements.iter().enumerate() {
        match statement {
            Statement::Let { name: identifier, .. } => {
                assert_eq!(identifier, &expected_statement_identifiers[i]);
            }
            _ => panic!("Expected a let statement"),
        }
    }
}

#[test]
fn return_statements() {
    let input = String::from(
        r#"
            return 5;
return 10;
return 993322;
          "#,
    );

    let lexer = Lexer::new(input);

    let mut parser = Parser::new(lexer);

    let program = parser.parse_program();

    assert_eq!(return_parser_errors(&parser), 0);

    assert_eq!(program.statements.len(), 3);

    let expected_expressions = vec![
        Expression::Identifier(String::from("5")),
        Expression::Identifier(String::from("10")),
        Expression::Identifier(String::from("993322")),
    ];

    for (i, statement) in program.statements.iter().enumerate() {
        match statement {
            Statement::Return { value: expression } => {
                assert_eq!(expression, &expected_expressions[i]);
            }
            _ => panic!("Expected a returm statement"),
        }
    }
}

#[test]
fn parser_errors() {
    let input = String::from(
        r#"
            let x = 5;
let = 10;
let foobar = 838383;
          "#,
    );

    let lexer = Lexer::new(input);

    let mut parser = Parser::new(lexer);

    parser.parse_program();

    assert_eq!(return_parser_errors(&parser), 1)
}

#[test]
fn parse_identifier_expression() {
    let input = String::from("foobar;");

    let lexer = Lexer::new(input);

    let mut parser = Parser::new(lexer);

    let program = parser.parse_program();

    assert_eq!(return_parser_errors(&parser), 0);

    assert_eq!(
        program.statements[0],
        Statement::ExpressionStatement { value: Expression::Identifier(String::from("foobar")) }
    )
}

#[test]
fn parser_let_statements() {
    let input = String::from(
        r#"
            let x = 5;
let y = 10;
let foobar = 838383;
                      "#,
    );

    let lexer = Lexer::new(input);
    let mut parser = Parser::new(lexer);

    let program = parser.parse_program();
    check_parser_errors(parser);

    assert_eq!(program.statements.len(), 3);

    let expected_identifiers = vec!["x", "y", "foobar"];

    for (index, &identifier) in expected_identifiers.iter().enumerate() {
        let statement = &program.statements[index];

        assert_eq!(statement.clone(), let_of(identifier))
    }
}

#[test]
fn parser_return_statements() {
    let input = String::from(
        r#"
            return x;
return 10;
return 838383;
                      "#,
    );

    let lexer = Lexer::new(input);
    let mut parser = Parser::new(lexer);

    let program = parser.parse_program();
    check_parser_errors(parser);

    assert_eq!(program.statements.len(), 3);

    let expected_identifiers = vec!["x", "10", "838383"];

    for (index, &identifier) in expected_identifiers.iter().enumerate() {
        let statement = &program.statements[index];

        assert_eq!(statement.clone(), return_of(identifier))
    }
}

#[test]
fn three_lets_in_order_and_no_error() {
    let (program, errors) = parse("let x = 5;\nlet y = 10;\nlet foobar = 838383;");
    assert_eq!(program.statements, vec![let_of("x"), let_of("y"), let_of("foobar")]);
    assert_eq!(errors, Vec::<String>::new());
}

#[test]
fn a_let_without_a_name_is_one_error_and_no_let() {
    let (program, errors) = parse("let = 10;");
    assert_eq!(errors.len(), 1);
    assert!(errors[0].contains("identifier"));
    assert_eq!(errors[0], "Expected identifier after 'let', got Assign instead");
    assert!(!program.statements.iter().any(|s| matches!(s, Statement::Let { .. })));
    assert_eq!(program.statements, vec![expression_of("10")]);
}

#[test]
fn three_returns_in_order_and_no_error() {
    let (program, errors) = parse("return 5;\nreturn 10;\nreturn 993322;");
    assert_eq!(program.statements, vec![return_of("5"), return_of("10"), return_of("993322")]);
    assert_eq!(errors, Vec::<String>::new());
}

#[test]
fn a_bare_identifier_is_one_expression_statement() {
    let (program, errors) = parse("foobar;");
    assert_eq!(program.statements, vec![expression_of("foobar")]);
    assert_eq!(errors, Vec::<String>::new());
}

#[test]
fn an_empty_source_is_an_empty_program() {
    let (program, errors) = parse("");
    assert_eq!(program.statements, Vec::<Statement>::new());
    assert_eq!(errors, Vec::<String>::new());
    let (program, errors) = parse("  \n\t ");
    assert_eq!(program.statements, Vec::<Statement>::new());
    assert_eq!(errors, Vec::<String>::new());
}

#[test]
fn the_value_of_a_let_is_passed_over() {
    let (program, errors) = parse("let x = 1 + 2 * (3 - y); let z = fn(a, b) { a };");
    assert_eq!(program.statements, vec![let_of("x"), let_of("z")]);
    assert_eq!(errors, Vec::<String>::new());
}

#[test]
fn a_let_ends_at_the_first_semicolon() {
    let (program, errors) = parse("let f = fn(a) { a; b };");
    assert_eq!(program.statements, vec![let_of("f"), expression_of("b")]);
    assert_eq!(errors, Vec::<String>::new());
}

#[test]
fn a_let_without_a_semicolon_runs_to_the_end() {
    let (program, errors) = parse("let x = 5");
    assert_eq!(program.statements, vec![let_of("x")]);
    assert_eq!(errors, Vec::<String>::new());
    let (program, errors) = parse("let x = 5 let y = 6");
    assert_eq!(program.statements, vec![let_of("x")]);
    assert_eq!(errors, Vec::<String>::new());
}

#[test]
fn a_let_without_assign_is_an_error_naming_both_tokens() {
    let (program, errors) = parse("let x 5;");
    assert_eq!(
        errors,
        vec![String::from("Expected next token to be Assign, got Int(\"5\") instead")]
    );
    assert_eq!(program.statements, vec![expression_of("5")]);

    let (program, errors) = parse("let x");
    assert_eq!(errors, vec![String::from("Expected next token to be Assign, got Eof instead")]);
    assert_eq!(program.statements, Vec::<Statement>::new());

    let (_, errors) = parse("let x == 5;");
    assert_eq!(errors, vec![String::from("Expected next token to be Assign, got Eq instead")]);
}

#[test]
fn a_let_followed_by_something_else_names_what_was_found() {
    let (_, errors) = parse("let 5 = x;");
    assert_eq!(
        errors,
        vec![String::from("Expected identifier after 'let', got Int(\"5\") instead")]
    );
    let (program, errors) = parse("let");
    assert_eq!(errors, vec![String::from("Expected identifier after 'let', got Eof instead")]);
    assert_eq!(program.statements, Vec::<Statement>::new());
    let (_, errors) = parse("let let x = 1;");
    assert_eq!(errors, vec![String::from("Expected identifier after 'let', got Let instead")]);
}

#[test]
fn a_return_takes_an_identifier_or_an_integer() {
    let (program, errors) = parse("return x; return 10;");
    assert_eq!(program.statements, vec![return_of("x"), return_of("10")]);
    assert_eq!(errors, Vec::<String>::new());
}

#[test]
fn the_rest_of_a_return_is_passed_over() {
    let (program, errors) = parse("return a + b * 2; return c");
    assert_eq!(program.statements, vec![return_of("a"), return_of("c")]);
    assert_eq!(errors, Vec::<String>::new());
}

#[test]
fn a_return_without_a_value_gives_nothing() {
    let (program, errors) = parse("return;");
    assert_eq!(program.statements, Vec::<Statement>::new());
    assert_eq!(errors, Vec::<String>::new());
    let (program, errors) = parse("return; return 1;");
    assert_eq!(program.statements, vec![return_of("1")]);
    assert_eq!(errors, Vec::<String>::new());
}

#[test]
fn a_return_followed_by_something_else_names_what_was_found() {
    let (program, errors) = parse("return (1);");
    assert_eq!(
        errors,
        vec![String::from("Expected identifier after 'return', got Lparen instead")]
    );
    assert_eq!(program.statements, vec![expression_of("1")]);
    let (program, errors) = parse("return");
    assert_eq!(errors, vec![String::from("Expected identifier after 'return', got Eof instead")]);
    assert_eq!(program.statements, Vec::<Statement>::new());
    let (_, errors) = parse("return true;");
    assert_eq!(errors, vec![String::from("Expected identifier after 'return', got True instead")]);
}

#[test]
fn errors_come_in_source_order_and_parsing_goes_on() {
    let (program, errors) = parse("let = 1; let a = 2; return +; let b 3; return b;");
    assert_eq!(
        errors,
        vec![
            String::from("Expected identifier after 'let', got Assign instead"),
            String::from("Expected identifier after 'return', got Plus instead"),
            String::from("Expected next token to be Assign, got Int(\"3\") instead"),
        ]
    );
    assert_eq!(
        program.statements,
        vec![expression_of("1"), let_of("a"), expression_of("3"), return_of("b")]
    );
}

#[test]
fn tokens_without_text_give_no_expression_statement() {
    let (program, errors) = parse("+ ; ( ) true @ if");
    assert_eq!(program.statements, Vec::<Statement>::new());
    assert_eq!(errors, Vec::<String>::new());
}

#[test]
fn an_integer_is_an_expression_statement() {
    let (program, errors) = parse("5; 10");
    assert_eq!(program.statements, vec![expression_of("5"), expression_of("10")]);
    assert_eq!(errors, Vec::<String>::new());
}

#[test]
fn each_token_with_text_starts_a_statement_of_its_own() {
    let (program, errors) = parse("a b; c");
    assert_eq!(
        program.statements,
        vec![expression_of("a"), expression_of("b"), expression_of("c")]
    );
    assert_eq!(errors, Vec::<String>::new());
}

#[test]
fn an_illegal_token_is_passed_without_a_statement() {
    let (program, errors) = parse("let x = 1;\0let y = 2; @ z");
    assert_eq!(program.statements, vec![let_of("x"), let_of("y"), expression_of("z")]);
    assert_eq!(errors, Vec::<String>::new());
    let (_, errors) = parse("let @ = 1;");
    assert_eq!(errors, vec![String::from("Expected identifier after 'let', got Illegal instead")]);
}

#[test]
fn next_token_moves_the_window_by_one() {
    let mut parser = parser_for("let x = 5;");
    assert_eq!(*parser.current_token(), Token::Let);
    parser.next_token();
    assert_eq!(*parser.current_token(), Token::Ident(String::from("x")));
    assert_eq!(*parser.peek_token(), Token::Assign);
    parser.next_token();
    parser.next_token();
    assert_eq!(*parser.current_token(), Token::Int(String::from("5")));
    assert_eq!(*parser.peek_token(), Token::Semicolon);
    parser.next_token();
    assert_eq!(*parser.current_token(), Token::Semicolon);
    assert_eq!(*parser.peek_token(), Token::Eof);
    for _ in 0..5 {
        parser.next_token();
        assert_eq!(*parser.current_token(), Token::Eof);
        assert_eq!(*parser.peek_token(), Token::Eof);
    }
    assert_eq!(parser.errors().len(), 0);
}

#[test]
fn expect_peek_moves_on_a_match() {
    let mut parser = parser_for("x = 5");
    assert!(parser.expect_peek(Token::Assign));
    assert_eq!(*parser.current_token(), Token::Assign);
    assert_eq!(*parser.peek_token(), Token::Int(String::from("5")));
    assert_eq!(parser.errors().len(), 0);
    assert!(parser.expect_peek(Token::Int(String::from("5"))));
    assert!(parser.expect_peek(Token::Eof));
}

#[test]
fn expect_peek_stays_and_records_on_a_mismatch() {
    let mut parser = parser_for("x = 5");
    assert!(!parser.expect_peek(Token::Semicolon));
    assert_eq!(*parser.current_token(), Token::Ident(String::from("x")));
    assert_eq!(*parser.peek_token(), Token::Assign);
    assert_eq!(
        *parser.errors(),
        vec![String::from("Expected next token to be Semicolon, got Assign instead")]
    );
    assert!(!parser.expect_peek(Token::Int(String::from("6"))));
    assert_eq!(
        parser.errors()[1],
        "Expected next token to be Int(\"6\"), got Assign instead"
    );
}

#[test]
fn parse_statement_stops_on_the_semicolon() {
    let mut parser = parser_for("let x = 5; return y;");
    assert_eq!(parser.parse_statement(), Some(let_of("x")));
    assert_eq!(*parser.current_token(), Token::Semicolon);
    assert_eq!(*parser.peek_token(), Token::Return);
    parser.next_token();
    assert_eq!(parser.parse_statement(), Some(return_of("y")));
    assert_eq!(*parser.current_token(), Token::Semicolon);
    assert_eq!(*parser.peek_token(), Token::Eof);
}

#[test]
fn a_failed_let_leaves_the_window_where_it_failed() {
    let mut parser = parser_for("let = 10;");
    assert_eq!(parser.parse_let_statement(), None);
    assert_eq!(*parser.current_token(), Token::Let);
    assert_eq!(*parser.peek_token(), Token::Assign);

    let mut parser = parser_for("let x 10;");
    assert_eq!(parser.parse_let_statement(), None);
    assert_eq!(*parser.current_token(), Token::Ident(String::from("x")));
    assert_eq!(*parser.peek_token(), Token::Int(String::from("10")));
}

#[test]
fn a_return_without_a_value_leaves_the_window() {
    let mut parser = parser_for("return;");
    assert_eq!(parser.parse_return_statement(), None);
    assert_eq!(*parser.current_token(), Token::Return);
    assert_eq!(*parser.peek_token(), Token::Semicolon);
    assert_eq!(parser.errors().len(), 0);
}

#[test]
fn an_expression_statement_takes_the_semicolon_after_it() {
    let mut parser = parser_for("foobar; x");
    assert_eq!(parser.parse_expression_statement(), Some(expression_of("foobar")));
    assert_eq!(*parser.current_token(), Token::Semicolon);
    parser.next_token();
    assert_eq!(parser.parse_expression_statement(), Some(expression_of("x")));
    assert_eq!(*parser.current_token(), Token::Ident(String::from("x")));

    let mut parser = parser_for("+;");
    assert_eq!(parser.parse_expression_statement(), None);
    assert_eq!(*parser.current_token(), Token::Semicolon);
}

#[test]
fn parse_expression_reads_the_current_token_at_every_rank() {
    let parser = parser_for("foobar + 1");
    let ranks = [
        Procedence::Lowest,
        Procedence::Equals,
        Procedence::LessGreater,
        Procedence::Sum,
        Procedence::Product,
        Procedence::Prefix,
        Procedence::Call,
    ];
    for rank in ranks {
        assert_eq!(
            parser.parse_expression(rank),
            Some(Expression::Identifier(String::from("foobar")))
        );
    }
    assert_eq!(parser_for("= 1").parse_expression(Procedence::Lowest), None);
}

#[test]
fn parse_prefix_gives_the_text_of_a_token() {
    assert_eq!(
        Parser::parse_prefix(&Token::Ident(String::from("a"))),
        Some(Expression::Identifier(String::from("a")))
    );
    assert_eq!(
        Parser::parse_prefix(&Token::Int(String::from("42"))),
        Some(Expression::Identifier(String::from("42")))
    );
    assert_eq!(Parser::parse_prefix(&Token::Bang), None);
    assert_eq!(Parser::parse_prefix(&Token::Plus), None);
    assert_eq!(Parser::parse_prefix(&Token::Eof), None);
}

#[test]
fn parsing_again_at_the_end_adds_nothing() {
    let mut parser = parser_for("let = 1;");
    let first = parser.parse_program();
    assert_eq!(first.statements, vec![expression_of("1")]);
    let second = parser.parse_program();
    assert_eq!(second.statements, Vec::<Statement>::new());
    assert_eq!(parser.errors().len(), 1);
}

#[test]
fn the_three_diagnostics_word_for_word() {
    assert_eq!(
        let_error_message("Assign"),
        "Expected identifier after 'let', got Assign instead"
    );
    assert_eq!(
        return_error_message("Int(\"5\")"),
        "Expected identifier after 'return', got Int(\"5\") instead"
    );
    assert_eq!(
        peek_error_message("Assign", "Ident(\"y\")"),
        "Expected next token to be Assign, got Ident(\"y\") instead"
    );
    assert_eq!(let_error_message(""), "Expected identifier after 'let', got  instead");
}
