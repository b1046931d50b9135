use script_frontend::ast::{Expression, Identifier, Procedence, Program, Statement};

#[test]
fn print_program() {
    let program = Program {
        statements: vec![Statement::Let {
            name: Identifier(String::from("myVar")),
            value: Expression::Identifier(String::from("X")),
        }],
    };

    assert_eq!(program.to_string(), "let myVar = X;")
}

#[test]
fn an_empty_program_prints_as_nothing() {
    let program = Program { statements: vec![] };
    assert_eq!(program.to_string(), "");
}

#[test]
fn let_statements_print_one_after_the_other() {
    let program = Program {
        statements: vec![
            Statement::Let {
                name: Identifier(String::from("a")),
                value: Expression::Identifier(String::from("1")),
            },
            Statement::Let {
                name: Identifier(String::from("b")),
                value: Expression::Identifier(String::from("a")),
            },
        ],
    };
    assert_eq!(program.to_string(), "let a = 1;let b = a;");
}

#[test]
fn only_let_statements_print() {
    let program = Program {
        statements: vec![
            Statement::Return { value: Expression::Identifier(String::from("5")) },
            Statement::Let {
                name: Identifier(String::from("x")),
                value: Expression::Identifier(String::from("y")),
            },
            Statement::ExpressionStatement { value: Expression::Identifier(String::from("z")) },
        ],
    };
    assert_eq!(program.to_string(), "let x = y;");
}

#[test]
fn the_text_of_an_expression() {
    assert_eq!(Expression::Identifier(String::from("foobar")).text(), "foobar");
    assert_eq!(Expression::Identifier(String::from("10")).text(), "10");
}

#[test]
fn ranks_rise_from_lowest_to_call() {
    let order = [
        Procedence::Lowest,
        Procedence::Equals,
        Procedence::LessGreater,
        Procedence::Sum,
        Procedence::Product,
        Procedence::Prefix,
        Procedence::Call,
    ];
    for (i, rank) in order.iter().enumerate() {
        assert_eq!(usize::from(rank.rank()), i);
    }
    assert_eq!(Procedence::Lowest.rank(), 0);
    assert_eq!(Procedence::Call.rank(), 6);
    assert!(Procedence::Sum.rank() < Procedence::Product.rank());
}

#[test]
fn statements_compare_by_form_and_parts() {
    let one = Statement::Return { value: Expression::Identifier(String::from("5")) };
    assert_eq!(one.clone(), one);
    assert_ne!(
        one,
        Statement::ExpressionStatement { value: Expression::Identifier(String::from("5")) }
    );
    assert_ne!(one, Statement::Return { value: Expression::Identifier(String::from("6")) });
    assert_eq!(Identifier(String::from("x")), Identifier(String::from("x")));
}
