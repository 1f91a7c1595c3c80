//! Binary and unary operator kinds and their textual forms.

use crate::text::str_eq;
use vstd::prelude::*;

verus! {

#[derive(PartialEq, Eq, Structural, Debug, Clone, Copy)]
pub enum OperatorType {
    Or,
    And,
    Equality,
    Inequality,
    LessThan,
    GreaterThan,
    LessThanOrEqual,
    GreaterThanOrEqual,
    Bang,
    Multiplication,
    Division,
    Modulus,
    Plus,
    Minus,
}

/// The operator denoted by a piece of token text, if any.
pub open spec fn operator_spec(s: Seq<char>) -> Option<OperatorType> {
    if s == "=="@ {
        Some(OperatorType::Equality)
    } else if s == "!="@ {
        Some(OperatorType::Inequality)
    } else if s == "!"@ {
        Some(OperatorType::Bang)
    } else if s == "<"@ {
        Some(OperatorType::LessThan)
    } else if s == ">"@ {
        Some(OperatorType::GreaterThan)
    } else if s == "<="@ {
        Some(OperatorType::LessThanOrEqual)
    } else if s == ">="@ {
        Some(OperatorType::GreaterThanOrEqual)
    } else if s == "*"@ {
        Some(OperatorType::Multiplication)
    } else if s == "/"@ {
        Some(OperatorType::Division)
    } else if s == "%"@ {
        Some(OperatorType::Modulus)
    } else if s == "+"@ {
        Some(OperatorType::Plus)
    } else if s == "-"@ {
        Some(OperatorType::Minus)
    } else {
        None
    }
}

/// Recognizes the operator written as `s`.
pub fn parse(s: &str) -> (r: Option<OperatorType>)
    ensures
        r == operator_spec(s@),
{
    if str_eq(s, "==") {
        Some(OperatorType::Equality)
    } else if str_eq(s, "!=") {
        Some(OperatorType::Inequality)
    } else if str_eq(s, "!") {
        Some(OperatorType::Bang)
    } else if str_eq(s, "<") {
        Some(OperatorType::LessThan)
    } else if str_eq(s, ">") {
        Some(OperatorType::GreaterThan)
    } else if str_eq(s, "<=") {
        Some(OperatorType::LessThanOrEqual)
    } else if str_eq(s, ">=") {
        Some(OperatorType::GreaterThanOrEqual)
    } else if str_eq(s, "*") {
        Some(OperatorType::Multiplication)
    } else if str_eq(s, "/") {
        Some(OperatorType::Division)
    } else if str_eq(s, "%") {
        Some(OperatorType::Modulus)
    } else if str_eq(s, "+") {
        Some(OperatorType::Plus)
    } else if str_eq(s, "-") {
        Some(OperatorType::Minus)
    } else {
        None
    }
}

} // verus!
