//! The tagged runtime value model, its mathematical view, and the
//! tagged runtime error type.

use crate::ast::{eq_stmt, AstStatement, StmtV};
use crate::ast::operator::OperatorType;
use crate::interpreter::function::{FunctionImplementation, ImpV, NativeHandler};
use crate::text::{render_i32, render_int};
use vstd::prelude::*;
use vstd::string::StringExecFns;

verus! {

#[derive(PartialEq, Debug)]
pub enum RuntimeValue {
    String(String),
    Integer(i32),
    Boolean(bool),
    Function { arity: u8, implementation: FunctionImplementation },
    Unit,
}

/// The mathematical view of a runtime value.
pub enum Val {
    Str(Seq<char>),
    Int(int),
    Bool(bool),
    Func { arity: u8, imp: ImpV },
    Unit,
}

impl View for RuntimeValue {
    type V = Val;

    open spec fn view(&self) -> Val {
        match self {
            RuntimeValue::String(s) => Val::Str(s@),
            RuntimeValue::Integer(i) => Val::Int(*i as int),
            RuntimeValue::Boolean(b) => Val::Bool(*b),
            RuntimeValue::Function { arity, implementation } => Val::Func {
                arity: *arity,
                imp: implementation@,
            },
            RuntimeValue::Unit => Val::Unit,
        }
    }
}

/// The textual rendering of a value, as `print` and `+` show it.
pub open spec fn render_value(v: Val) -> Seq<char> {
    match v {
        Val::Str(s) => s,
        Val::Int(i) => render_int(i),
        Val::Bool(b) => if b {
            "true"@
        } else {
            "false"@
        },
        Val::Func { arity, imp } => "<function>"@,
        Val::Unit => "unit"@,
    }
}

/// The name of a value's type, used in error reports.
pub open spec fn type_label_of(v: Val) -> Seq<char> {
    match v {
        Val::Str(s) => "string"@,
        Val::Int(i) => "integer"@,
        Val::Bool(b) => "boolean"@,
        Val::Func { arity, imp } => "function"@,
        Val::Unit => "unit"@,
    }
}

impl RuntimeValue {
    /// The textual rendering of this value.
    pub fn value_as_string(&self) -> (s: String)
        ensures
            s@ == render_value(self@),
    {
        match self {
            RuntimeValue::String(s) => s.clone(),
            RuntimeValue::Integer(i) => render_i32(*i),
            RuntimeValue::Boolean(b) => if *b {
                String::from_str("true")
            } else {
                String::from_str("false")
            },
            RuntimeValue::Function { arity, implementation } => String::from_str("<function>"),
            RuntimeValue::Unit => String::from_str("unit"),
        }
    }

    /// The name of this value's type.
    pub fn type_label(&self) -> (r: &str)
        ensures
            r@ == type_label_of(self@),
    {
        match self {
            RuntimeValue::String(s) => "string",
            RuntimeValue::Integer(i) => "integer",
            RuntimeValue::Boolean(b) => "boolean",
            RuntimeValue::Function { arity, implementation } => "function",
            RuntimeValue::Unit => "unit",
        }
    }

    /// Structural equality of two values.  Values of different variants
    /// are never equal.
    pub fn equals(&self, other: &RuntimeValue) -> (r: bool)
        ensures
            r == (self@ == other@),
    {
        match (self, other) {
            (RuntimeValue::String(a), RuntimeValue::String(b)) => crate::text::str_eq(
                a.as_str(),
                b.as_str(),
            ),
            (RuntimeValue::Integer(a), RuntimeValue::Integer(b)) => *a == *b,
            (RuntimeValue::Boolean(a), RuntimeValue::Boolean(b)) => *a == *b,
            (
                RuntimeValue::Function { arity: a1, implementation: i1 },
                RuntimeValue::Function { arity: a2, implementation: i2 },
            ) => *a1 == *a2 && i1.equals(i2),
            (RuntimeValue::Unit, RuntimeValue::Unit) => true,
            _ => {
                proof {
                    lemma_distinct_value_views(self, other);
                }
                false
            },
        }
    }

    /// A copy of this value with the same view.
    pub fn duplicate(&self) -> (r: RuntimeValue)
        ensures
            r@ == self@,
    {
        match self {
            RuntimeValue::String(s) => RuntimeValue::String(s.clone()),
            RuntimeValue::Integer(i) => RuntimeValue::Integer(*i),
            RuntimeValue::Boolean(b) => RuntimeValue::Boolean(*b),
            RuntimeValue::Function { arity, implementation } => RuntimeValue::Function {
                arity: *arity,
                implementation: implementation.duplicate(),
            },
            RuntimeValue::Unit => RuntimeValue::Unit,
        }
    }
}

/// Whether two values are built from the same variant.
pub open spec fn values_match(a: &RuntimeValue, b: &RuntimeValue) -> bool {
    ||| (a is String && b is String)
    ||| (a is Integer && b is Integer)
    ||| (a is Boolean && b is Boolean)
    ||| (a is Function && b is Function)
    ||| (a is Unit && b is Unit)
}

/// Values built from different variants have different views.
proof fn lemma_distinct_value_views(a: &RuntimeValue, b: &RuntimeValue)
    ensures
        !values_match(a, b) ==> a@ != b@,
{
}

// ---------------------------------------------------------------------
// Errors.  Every failure of evaluation is one of these kinds; a
// human-readable message can be rendered from each.
// ---------------------------------------------------------------------
#[derive(PartialEq, Debug)]
pub enum RuntimeError {
    ExpectedTwoIntegers { left: RuntimeValue, right: RuntimeValue },
    ExpectedInteger { value: RuntimeValue },
    ExpectedBoolean { value: RuntimeValue },
    CannotParseInteger { text: String },
    DivisionByZero,
    IntegerOverflow,
    UndefinedVariable { name: String },
    AlreadyDefined { name: String },
    NotDefined { name: String },
    NotCallable { type_label: String },
    ArityMismatch { expected: u8, actual: usize },
    LengthOfNonString { type_label: String },
    UserFunctionUnsupported,
    UnsupportedOperator { operator: OperatorType },
    LoopLimitReached,
}

/// The mathematical view of a runtime error.
pub enum ErrV {
    ExpectedTwoIntegers { left: Val, right: Val },
    ExpectedInteger { value: Val },
    ExpectedBoolean { value: Val },
    CannotParseInteger { text: Seq<char> },
    DivisionByZero,
    IntegerOverflow,
    UndefinedVariable { name: Seq<char> },
    AlreadyDefined { name: Seq<char> },
    NotDefined { name: Seq<char> },
    NotCallable { type_label: Seq<char> },
    ArityMismatch { expected: u8, actual: usize },
    LengthOfNonString { type_label: Seq<char> },
    UserFunctionUnsupported,
    UnsupportedOperator { operator: OperatorType },
    LoopLimitReached,
}

/// The human-readable message of a runtime error.
pub open spec fn error_message(e: ErrV) -> Seq<char> {
    match e {
        ErrV::ExpectedTwoIntegers { left, right } => "Expected two integers, got "@ + render_value(
            left,
        ) + " and "@ + render_value(right),
        ErrV::ExpectedInteger { value } => "Expected an integer, got "@ + render_value(value),
        ErrV::ExpectedBoolean { value } => "Expected a boolean, got "@ + render_value(value),
        ErrV::CannotParseInteger { text } => "Can't parse integer: "@ + text,
        ErrV::DivisionByZero => "Division by zero"@,
        ErrV::IntegerOverflow => "Integer overflow"@,
        ErrV::UndefinedVariable { name } => "Variable not found: "@ + name,
        ErrV::AlreadyDefined { name } => "Variable '"@ + name + "' is already defined"@,
        ErrV::NotDefined { name } => "Variable '"@ + name + "' is not found"@,
        ErrV::NotCallable { type_label } => "Attempt to call "@ + type_label,
        ErrV::ArityMismatch { expected, actual } => "Attempt to call function with "@
            + crate::text::dec_digits(actual as nat) + " arguments when "@
            + crate::text::dec_digits(expected as nat) + " were expected"@,
        ErrV::LengthOfNonString { type_label } => "Attempt to get length of "@ + type_label,
        ErrV::UserFunctionUnsupported => "Attempt to call a user-defined function"@,
        ErrV::UnsupportedOperator { operator } => "Unsupported operator"@,
        ErrV::LoopLimitReached => "Loop step limit reached"@,
    }
}

impl RuntimeError {
    /// Renders this error as a human-readable message.
    pub fn message(&self) -> (s: String)
        ensures
            s@ == error_message(self@),
    {
        match self {
            RuntimeError::ExpectedTwoIntegers { left, right } => {
                let mut s = String::from_str("Expected two integers, got ");
                let l = left.value_as_string();
                crate::text::push_str(&mut s, l.as_str());
                crate::text::push_str(&mut s, " and ");
                let r = right.value_as_string();
                crate::text::push_str(&mut s, r.as_str());
                s
            },
            RuntimeError::ExpectedInteger { value } => {
                let mut s = String::from_str("Expected an integer, got ");
                let v = value.value_as_string();
                crate::text::push_str(&mut s, v.as_str());
                s
            },
            RuntimeError::ExpectedBoolean { value } => {
                let mut s = String::from_str("Expected a boolean, got ");
                let v = value.value_as_string();
                crate::text::push_str(&mut s, v.as_str());
                s
            },
            RuntimeError::CannotParseInteger { text } => {
                let mut s = String::from_str("Can't parse integer: ");
                crate::text::push_str(&mut s, text.as_str());
                s
            },
            RuntimeError::DivisionByZero => String::from_str("Division by zero"),
            RuntimeError::IntegerOverflow => String::from_str("Integer overflow"),
            RuntimeError::UndefinedVariable { name } => {
                let mut s = String::from_str("Variable not found: ");
                crate::text::push_str(&mut s, name.as_str());
                s
            },
            RuntimeError::AlreadyDefined { name } => {
                let mut s = String::from_str("Variable '");
                crate::text::push_str(&mut s, name.as_str());
                crate::text::push_str(&mut s, "' is already defined");
                s
            },
            RuntimeError::NotDefined { name } => {
                let mut s = String::from_str("Variable '");
                crate::text::push_str(&mut s, name.as_str());
                crate::text::push_str(&mut s, "' is not found");
                s
            },
            RuntimeError::NotCallable { type_label: t } => {
                let mut s = String::from_str("Attempt to call ");
                crate::text::push_str(&mut s, t.as_str());
                s
            },
            RuntimeError::ArityMismatch { expected, actual } => {
                let mut s = String::from_str("Attempt to call function with ");
                crate::text::push_usize_decimal(&mut s, *actual);
                crate::text::push_str(&mut s, " arguments when ");
                crate::text::push_usize_decimal(&mut s, *expected as usize);
                crate::text::push_str(&mut s, " were expected");
                s
            },
            RuntimeError::LengthOfNonString { type_label: t } => {
                let mut s = String::from_str("Attempt to get length of ");
                crate::text::push_str(&mut s, t.as_str());
                s
            },
            RuntimeError::UserFunctionUnsupported => String::from_str(
                "Attempt to call a user-defined function",
            ),
            RuntimeError::UnsupportedOperator { operator } => String::from_str(
                "Unsupported operator",
            ),
            RuntimeError::LoopLimitReached => String::from_str("Loop step limit reached"),
        }
    }
}

impl View for RuntimeError {
    type V = ErrV;

    open spec fn view(&self) -> ErrV {
        match self {
            RuntimeError::ExpectedTwoIntegers { left, right } => ErrV::ExpectedTwoIntegers {
                left: left@,
                right: right@,
            },
            RuntimeError::ExpectedInteger { value } => ErrV::ExpectedInteger { value: value@ },
            RuntimeError::ExpectedBoolean { value } => ErrV::ExpectedBoolean { value: value@ },
            RuntimeError::CannotParseInteger { text } => ErrV::CannotParseInteger { text: text@ },
            RuntimeError::DivisionByZero => ErrV::DivisionByZero,
            RuntimeError::IntegerOverflow => ErrV::IntegerOverflow,
            RuntimeError::UndefinedVariable { name } => ErrV::UndefinedVariable { name: name@ },
            RuntimeError::AlreadyDefined { name } => ErrV::AlreadyDefined { name: name@ },
            RuntimeError::NotDefined { name } => ErrV::NotDefined { name: name@ },
            RuntimeError::NotCallable { type_label: t } => ErrV::NotCallable { type_label: t@ },
            RuntimeError::ArityMismatch { expected, actual } => ErrV::ArityMismatch {
                expected: *expected,
                actual: *actual,
            },
            RuntimeError::LengthOfNonString { type_label: t } => ErrV::LengthOfNonString {
                type_label: t@,
            },
            RuntimeError::UserFunctionUnsupported => ErrV::UserFunctionUnsupported,
            RuntimeError::UnsupportedOperator { operator } => ErrV::UnsupportedOperator {
                operator: *operator,
            },
            RuntimeError::LoopLimitReached => ErrV::LoopLimitReached,
        }
    }
}

} // verus!
