use fops::ast::expression::expression;
use fops::ast::statement::statement;
use fops::ast::AstExpression::{BiOperator, BooleanLiteral, Call, Logical, NumberLiteral, StringLiteral, Symbol, UnaryOperator};
use fops::ast::AstStatement::{Block, If, While};
use fops::ast::LogicalOperator::{And, Or};
use fops::ast::operator::OperatorType;
use fops::ast::operator::OperatorType::{Division, Multiplication};
use fops::ast::util::ParseError;
use fops::ast::{parse_expression_only, parse_script, AstStatement, ConditionalClause};
use fops::lexer::lex_from_string;

#[test]
fn test_call_parsing_zero_args() {
    let mut lexed = lex_from_string("panic()".to_string()).unwrap();

    let expression = expression(&mut lexed).expect("Expected to return Ok");
    assert_eq!(expression, Call {
        callee: Box::new(Symbol { name: "panic".to_string() }),
        arguments: vec![],
    });
}

#[test]
fn test_call_parsing_one_arg() {
    let mut lexed = lex_from_string("println(\"Hello, world!\")".to_string()).unwrap();

    let expression = expression(&mut lexed).expect("Expected to return Ok");
    assert_eq!(expression, Call {
        callee: Box::new(Symbol { name: "println".to_string() }),
        arguments: vec![StringLiteral { value: "Hello, world!".to_string() }],
    });
}

#[test]
fn test_parenthesis_division() {
    let lexed = lex_from_string("(-500*bar)/10".to_string()).unwrap();
    let expected = BiOperator {
        operator: Division,
        left: Box::new(BiOperator {
            operator: Multiplication,
            left: Box::new(UnaryOperator {
                operator: OperatorType::Minus,
                operand: Box::new(NumberLiteral { value: "500".to_string() }),
            }),
            right: Box::new(Symbol { name: "bar".to_string() }),
        }),
        right: Box::new(NumberLiteral { value: "10".to_string() }),
    };

    assert_eq!(parse_expression_only(lexed), Ok(expected));
}

#[test]
fn test_logical_expressions() {
    let lexed = lex_from_string("a && b || c".to_string()).unwrap();
    let expected = Logical {
        operator: Or,
        left: Box::new(Logical {
            operator: And,
            left: Box::new(Symbol { name: "a".to_string() }),
            right: Box::new(Symbol { name: "b".to_string() }),
        }),
        right: Box::new(Symbol { name: "c".to_string() }),
    };
    assert_eq!(parse_expression_only(lexed), Ok(expected));
}

#[test]
fn test_if_parsing() {
    let source = r#"
        if (a) {
        } else if (b) {
        } else {
        }
        "#;
    let mut lexed = lex_from_string(source.to_string()).unwrap();
    let statement = statement(&mut lexed).expect("Expected to return Ok");

    assert!(lexed.is_empty());
    assert_eq!(statement, If {
        conditional_clauses: vec![
            ConditionalClause {
                condition: Symbol { name: "a".to_string() },
                statement: Block { statements: vec![] },
            },
            ConditionalClause {
                condition: Symbol { name: "b".to_string() },
                statement: Block { statements: vec![] },
            },
        ],
        else_clause: Some(Box::new(Block { statements: vec![] })),
    });
}

#[test]
fn test_while_parsing() {
    let source = "while (true) {}";
    let mut lexed = lex_from_string(source.to_string()).unwrap();
    let statement = statement(&mut lexed).expect("Expected to return Ok");

    assert!(lexed.is_empty());
    assert_eq!(statement, While {
        condition: BooleanLiteral { value: true },
        statement: Box::new(Block { statements: vec![] }),
    })
}

#[test]
fn test_block_statement() {
    let source = "{ test1(100); test2(200); }";
    let mut lexed = lex_from_string(source.to_string()).unwrap();
    let statement = statement(&mut lexed).expect("Expected to return Ok");

    assert!(lexed.is_empty());
    assert_eq!(statement, Block {
        statements: vec![
            AstStatement::Expression {
                expression: Call {
                    callee: Box::new(Symbol { name: "test1".to_string() }),
                    arguments: vec![NumberLiteral { value: "100".to_string() }],
                },
            },
            AstStatement::Expression {
                expression: Call {
                    callee: Box::new(Symbol { name: "test2".to_string() }),
                    arguments: vec![NumberLiteral { value: "200".to_string() }],
                },
            },
        ],
    });
}

#[test]
fn test_declaration_parsing() {
    let mut lexed = lex_from_string("let four = 4;".to_string()).unwrap();
    let statement = statement(&mut lexed).expect("Expected to return Ok");

    assert_eq!(statement, AstStatement::Declaration {
        name: "four".to_string(),
        expression: NumberLiteral { value: "4".to_string() },
    });
    assert!(lexed.is_empty(), "Expected all tokens to be fully consumed");
}

#[test]
fn test_reassignment_parsing() {
    let mut lexed = lex_from_string("four = 4;".to_string()).unwrap();
    let statement = statement(&mut lexed).expect("Expected to return Ok");

    assert_eq!(statement, AstStatement::Reassignment {
        name: "four".to_string(),
        expression: NumberLiteral { value: "4".to_string() },
    });
    assert!(lexed.is_empty(), "Expected all tokens to be fully consumed");
}

#[test]
fn test_expression_parsing() {
    let mut lexed = lex_from_string("println(\"Hello, world!\");".to_string()).unwrap();
    let statement = statement(&mut lexed).expect("Expected to return Ok");

    assert_eq!(statement, AstStatement::Expression {
        expression: Call {
            callee: Box::new(Symbol { name: "println".to_string() }),
            arguments: vec![StringLiteral { value: "Hello, world!".to_string() }],
        },
    });
    assert!(lexed.is_empty(), "Expected all tokens to be fully consumed");
}

#[test]
fn parse_script_requires_semicolons() {
    let lexed = lex_from_string("let a = 1".to_string()).unwrap();
    assert!(parse_script(lexed).is_err());
}

#[test]
fn parse_reports_missing_close_parenthesis() {
    let lexed = lex_from_string("(1 + 2".to_string()).unwrap();
    assert!(parse_expression_only(lexed).is_err());
}

#[test]
fn parse_error_variants_are_reported() {
    let lexed = lex_from_string("let a = 1".to_string()).unwrap();
    assert_eq!(
        parse_script(lexed),
        Err(ParseError::ExpectedTokenEndOfInput { expected: ";".to_string() })
    );

    let lexed = lex_from_string("let a = 1 2".to_string()).unwrap();
    assert_eq!(
        parse_script(lexed),
        Err(ParseError::ExpectedToken { expected: ";".to_string(), encountered: "2".to_string() })
    );

    let lexed = lex_from_string("else".to_string()).unwrap();
    assert_eq!(
        parse_expression_only(lexed),
        Err(ParseError::UnexpectedToken { text: "else".to_string() })
    );

    let lexed = lex_from_string("".to_string()).unwrap();
    assert_eq!(parse_expression_only(lexed), Err(ParseError::UnexpectedEndOfInput));

    let lexed = lex_from_string("{ let a = 1;".to_string()).unwrap();
    assert_eq!(parse_script(lexed), Err(ParseError::UnexpectedEndOfFileInBlock));

    let lexed = lex_from_string("let".to_string()).unwrap();
    assert_eq!(parse_script(lexed), Err(ParseError::ExpectedNameInDeclaration));
}
