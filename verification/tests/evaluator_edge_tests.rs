use fops::ast::operator::OperatorType;
use fops::ast::{parse_expression_only, parse_script, AstExpression, AstStatement};
use fops::interpreter::function::FunctionImplementation;
use fops::interpreter::stack::Bindings;
use fops::interpreter::value::RuntimeError;
use fops::interpreter::value::RuntimeValue;
use fops::interpreter::value::RuntimeValue::{Boolean, Integer, Unit};
use fops::interpreter::{run, run_expression, InterpreterEndState};
use fops::lexer::lex_from_string;

fn parse_statements(string: &str) -> Vec<AstStatement> {
    let lexed = lex_from_string(string.to_string()).unwrap();
    parse_script(lexed).expect("Parsing failed")
}

fn eval(string: &str) -> Result<RuntimeValue, RuntimeError> {
    let lexed = lex_from_string(string.to_string()).unwrap();
    let expression = parse_expression_only(lexed).expect("Parsing failed");
    run_expression(Bindings::new(), &expression).result
}

#[test]
fn division_by_zero_is_an_error() {
    assert_eq!(eval("1 / 0"), Err(RuntimeError::DivisionByZero));
    assert_eq!(eval("1 % 0"), Err(RuntimeError::DivisionByZero));
}

#[test]
fn addition_overflow_is_an_error() {
    assert_eq!(eval("2147483647 + 1"), Err(RuntimeError::IntegerOverflow));
    assert_eq!(eval("2147483647 * 2"), Err(RuntimeError::IntegerOverflow));
}

#[test]
fn modulus_takes_the_dividend_sign() {
    assert_eq!(eval("7 % 2"), Ok(Integer(1)));
    assert_eq!(eval("-7 % 2"), Ok(Integer(-1)));
}

#[test]
fn arithmetic_needs_two_integers() {
    assert_eq!(
        eval("\"foo\" - 1"),
        Err(RuntimeError::ExpectedTwoIntegers {
            left: RuntimeValue::String("foo".to_string()),
            right: Integer(1),
        })
    );
}

#[test]
fn unary_operators_check_their_operand() {
    assert_eq!(
        eval("-true"),
        Err(RuntimeError::ExpectedInteger { value: Boolean(true) })
    );
    assert_eq!(
        eval("!5"),
        Err(RuntimeError::ExpectedBoolean { value: Integer(5) })
    );
}

#[test]
fn number_literal_out_of_range_is_an_error() {
    assert_eq!(
        eval("9999999999"),
        Err(RuntimeError::CannotParseInteger { text: "9999999999".to_string() })
    );
}

#[test]
fn undefined_variable_is_an_error() {
    assert_eq!(
        eval("missing"),
        Err(RuntimeError::UndefinedVariable { name: "missing".to_string() })
    );
}

#[test]
fn logical_operators_short_circuit() {
    assert_eq!(eval("false && missing"), Ok(Boolean(false)));
    assert_eq!(eval("true || missing"), Ok(Boolean(true)));
    assert_eq!(eval("true && true"), Ok(Boolean(true)));
    assert_eq!(eval("false || false"), Ok(Boolean(false)));
}

#[test]
fn redeclaration_in_same_frame_fails() {
    let statements = parse_statements("let a = 1; let a = 2;");
    let InterpreterEndState { globals, result } = run(&statements);
    assert_eq!(
        result,
        Err(RuntimeError::AlreadyDefined { name: "a".to_string() })
    );
    assert_eq!(globals.get("a"), Some(&Integer(1)));
}

#[test]
fn redeclaration_in_nested_frame_shadows() {
    let statements = parse_statements("let a = 1; { let a = 2; }");
    let InterpreterEndState { globals, result } = run(&statements);
    result.unwrap();
    assert_eq!(globals.get("a"), Some(&Integer(1)));
}

#[test]
fn reassigning_undeclared_name_keeps_globals() {
    let statements = parse_statements("let a = 1; b = 2;");
    let InterpreterEndState { globals, result } = run(&statements);
    assert_eq!(
        result,
        Err(RuntimeError::NotDefined { name: "b".to_string() })
    );
    assert_eq!(globals.get("a"), Some(&Integer(1)));
}

#[test]
fn shadowing_restores_the_outer_binding() {
    let statements = parse_statements("let a = 1; let b = 2; { let b = 3; a = b; }");
    let InterpreterEndState { globals, result } = run(&statements);
    result.unwrap();
    assert_eq!(globals.get("a"), Some(&Integer(3)));
    assert_eq!(globals.get("b"), Some(&Integer(2)));
}

#[test]
fn builtin_arity_is_checked() {
    assert_eq!(
        eval("println()"),
        Err(RuntimeError::ArityMismatch { expected: 1, actual: 0 })
    );
}

#[test]
fn calling_a_non_function_names_its_type() {
    assert_eq!(
        eval("5(2)"),
        Err(RuntimeError::NotCallable { type_label: "integer".to_string() })
    );
}

#[test]
fn len_counts_string_characters() {
    assert_eq!(eval("len(\"hello\")"), Ok(Integer(5)));
    assert_eq!(eval("len(\"\")"), Ok(Integer(0)));
    assert_eq!(
        eval("len(5)"),
        Err(RuntimeError::LengthOfNonString { type_label: "integer".to_string() })
    );
}

#[test]
fn println_returns_unit() {
    assert_eq!(eval("println(\"hi\")"), Ok(Unit));
}

#[test]
fn while_loops_until_condition_fails() {
    let statements = parse_statements("let i = 0; while (i < 5) { i = i + 1; }");
    let InterpreterEndState { globals, result } = run(&statements);
    result.unwrap();
    assert_eq!(globals.get("i"), Some(&Integer(5)));
}

#[test]
fn condition_values_other_than_true_are_not_taken() {
    let statements = parse_statements("let a = 0; if (5) { a = 1; } else { a = 2; }");
    let InterpreterEndState { globals, result } = run(&statements);
    result.unwrap();
    assert_eq!(globals.get("a"), Some(&Integer(2)));
}

#[test]
fn rendering_of_values_in_concatenation() {
    assert_eq!(eval("\"n=\" + -12"), Ok(RuntimeValue::String("n=-12".to_string())));
    assert_eq!(eval("1 + \"x\""), Ok(RuntimeValue::String("1x".to_string())));
    assert_eq!(eval("true + false"), Ok(RuntimeValue::String("truefalse".to_string())));
}

#[test]
fn error_messages_are_rendered() {
    assert_eq!(
        eval("b = 1").unwrap_err().message(),
        "Variable not found: b".to_string()
    );
    let statements = parse_statements("let a = 1; let a = 2;");
    let err = run(&statements).result.unwrap_err();
    assert_eq!(err.message(), "Variable 'a' is already defined".to_string());
    let statements = parse_statements("b = 2;");
    let err = run(&statements).result.unwrap_err();
    assert_eq!(err.message(), "Variable 'b' is not found".to_string());
    assert_eq!(
        eval("println(1 2)").unwrap_err().message(),
        "Attempt to call function with 2 arguments when 1 were expected".to_string()
    );
}

#[test]
fn lex_error_messages_are_rendered() {
    let err = fops::lexer::lex_from_string("ab$".to_string()).unwrap_err();
    assert_eq!(
        err.message(),
        "Unexpected character '$' at 1:3 when reading symbol".to_string()
    );
}

#[test]
fn user_defined_functions_cannot_be_invoked() {
    let mut globals = Bindings::new();
    globals.insert(
        "f".to_string(),
        RuntimeValue::Function {
            arity: 0,
            implementation: FunctionImplementation::UserFunction {
                statement: AstStatement::Block { statements: vec![] },
            },
        },
    );
    let lexed = lex_from_string("f()".to_string()).unwrap();
    let expression = parse_expression_only(lexed).expect("Parsing failed");
    assert_eq!(
        run_expression(globals, &expression).result,
        Err(RuntimeError::UserFunctionUnsupported)
    );
}

#[test]
fn logical_operator_kinds_are_rejected_as_binary_operators() {
    let expression = AstExpression::BiOperator {
        operator: OperatorType::Bang,
        left: Box::new(AstExpression::BooleanLiteral { value: true }),
        right: Box::new(AstExpression::BooleanLiteral { value: false }),
    };
    assert_eq!(
        run_expression(Bindings::new(), &expression).result,
        Err(RuntimeError::UnsupportedOperator { operator: OperatorType::Bang })
    );
}
