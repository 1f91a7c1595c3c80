//! The tree-walking evaluator: a mathematical evaluation function over
//! views of the syntax tree, and the executable interpreter proved to
//! match it.
//!
//! Expression evaluation always terminates and never changes the
//! environment, so it is specified as a total function.  Statements can
//! loop, so their specification takes a fuel bound: `None` means the
//! fuel did not suffice, and one unit of fuel is spent each time a
//! `while` loops back.

pub mod function;
pub mod stack;
pub mod value;

use crate::ast::{
    clauses_view, expr_size, expr_view, exprs_size, exprs_view, lemma_clauses_size_element,
    lemma_clauses_view_index, lemma_clauses_view_len, lemma_exprs_size_element,
    lemma_exprs_view_index,
    lemma_exprs_view_len, lemma_stmts_size_element, lemma_stmts_view_index, lemma_stmts_view_len,
    stmt_size, stmt_view, stmts_view, AstExpression, AstStatement, ClauseV, ExprV, LogicalOperator,
    StmtV,
};
use crate::ast::operator::OperatorType;
use crate::interpreter::function::{native_spec, FunctionImplementation, ImpV, NativeHandler};
use crate::interpreter::stack::{
    spec_declare, spec_lookup, spec_reassign, Bindings, EnvV, FrameV, Stack,
};
use crate::interpreter::value::{
    render_value, type_label_of, ErrV, RuntimeError, RuntimeValue, Val,
};
use crate::text::parse_i32_spec;
use vstd::prelude::*;

verus! {

// ---------------------------------------------------------------------
// Views of values in bulk, and of results.
// ---------------------------------------------------------------------
pub open spec fn vals_view(vs: Seq<RuntimeValue>) -> Seq<Val>
    decreases vs,
{
    if vs.len() == 0 {
        Seq::empty()
    } else {
        vals_view(vs.drop_last()).push(vs.last()@)
    }
}

pub proof fn lemma_vals_view_len(vs: Seq<RuntimeValue>)
    ensures
        vals_view(vs).len() == vs.len(),
    decreases vs,
{
    if vs.len() > 0 {
        lemma_vals_view_len(vs.drop_last());
    }
}

pub proof fn lemma_vals_view_index(vs: Seq<RuntimeValue>, i: int)
    requires
        0 <= i < vs.len(),
    ensures
        vals_view(vs).len() == vs.len(),
        vals_view(vs)[i] == vs[i]@,
    decreases vs,
{
    lemma_vals_view_len(vs);
    if i < vs.len() - 1 {
        lemma_vals_view_index(vs.drop_last(), i);
    }
}

pub open spec fn result_view(r: Result<RuntimeValue, RuntimeError>) -> Result<Val, ErrV> {
    match r {
        Ok(v) => Ok(v@),
        Err(e) => Err(e@),
    }
}

pub open spec fn unit_result_view(r: Result<(), RuntimeError>) -> Result<(), ErrV> {
    match r {
        Ok(()) => Ok(()),
        Err(e) => Err(e@),
    }
}

// ---------------------------------------------------------------------
// Machine arithmetic: division and remainder truncate toward zero.
// ---------------------------------------------------------------------
/// Integer division truncated toward zero.
pub open spec fn trunc_div(x: int, d: int) -> int {
    if x == 0 {
        0
    } else if x > 0 && d > 0 {
        x / d
    } else if x < 0 && d < 0 {
        (x * -1) / (d * -1)
    } else if x < 0 {
        ((x * -1) / d) * -1
    } else {
        (x / (d * -1)) * -1
    }
}

/// Integer remainder matching division truncated toward zero.
pub open spec fn trunc_rem(x: int, d: int) -> int {
    if x == 0 {
        0
    } else if x > 0 && d > 0 {
        x % d
    } else if x < 0 && d < 0 {
        ((x * -1) % (d * -1)) * -1
    } else if x < 0 {
        ((x * -1) % d) * -1
    } else {
        x % (d * -1)
    }
}

pub open spec fn fits_i32(v: int) -> bool {
    i32::MIN <= v <= i32::MAX
}

// ---------------------------------------------------------------------
// Operator semantics.
// ---------------------------------------------------------------------
/// What a binary operator yields on two evaluated operands.  Equality
/// is structural across all variants; comparisons and the remaining
/// arithmetic need two integers; `+` adds integers and otherwise
/// concatenates the operands' textual renderings.
pub open spec fn apply_bi_operator(op: OperatorType, l: Val, r: Val) -> Result<Val, ErrV> {
    match op {
        OperatorType::Equality => Ok(Val::Bool(l == r)),
        OperatorType::Inequality => Ok(Val::Bool(l != r)),
        OperatorType::LessThan => match (l, r) {
            (Val::Int(a), Val::Int(b)) => Ok(Val::Bool(a < b)),
            (a, b) => Err(ErrV::ExpectedTwoIntegers { left: a, right: b }),
        },
        OperatorType::LessThanOrEqual => match (l, r) {
            (Val::Int(a), Val::Int(b)) => Ok(Val::Bool(a <= b)),
            (a, b) => Err(ErrV::ExpectedTwoIntegers { left: a, right: b }),
        },
        OperatorType::GreaterThan => match (l, r) {
            (Val::Int(a), Val::Int(b)) => Ok(Val::Bool(a > b)),
            (a, b) => Err(ErrV::ExpectedTwoIntegers { left: a, right: b }),
        },
        OperatorType::GreaterThanOrEqual => match (l, r) {
            (Val::Int(a), Val::Int(b)) => Ok(Val::Bool(a >= b)),
            (a, b) => Err(ErrV::ExpectedTwoIntegers { left: a, right: b }),
        },
        OperatorType::Multiplication => match (l, r) {
            (Val::Int(a), Val::Int(b)) => if fits_i32(a * b) {
                Ok(Val::Int(a * b))
            } else {
                Err(ErrV::IntegerOverflow)
            },
            (a, b) => Err(ErrV::ExpectedTwoIntegers { left: a, right: b }),
        },
        OperatorType::Division => match (l, r) {
            (Val::Int(a), Val::Int(b)) => if b == 0 {
                Err(ErrV::DivisionByZero)
            } else if fits_i32(trunc_div(a, b)) {
                Ok(Val::Int(trunc_div(a, b)))
            } else {
                Err(ErrV::IntegerOverflow)
            },
            (a, b) => Err(ErrV::ExpectedTwoIntegers { left: a, right: b }),
        },
        OperatorType::Modulus => match (l, r) {
            (Val::Int(a), Val::Int(b)) => if b == 0 {
                Err(ErrV::DivisionByZero)
            } else if a == i32::MIN && b == -1 {
                Err(ErrV::IntegerOverflow)
            } else if fits_i32(trunc_rem(a, b)) {
                Ok(Val::Int(trunc_rem(a, b)))
            } else {
                Err(ErrV::IntegerOverflow)
            },
            (a, b) => Err(ErrV::ExpectedTwoIntegers { left: a, right: b }),
        },
        OperatorType::Plus => match (l, r) {
            (Val::Int(a), Val::Int(b)) => if fits_i32(a + b) {
                Ok(Val::Int(a + b))
            } else {
                Err(ErrV::IntegerOverflow)
            },
            (a, b) => Ok(Val::Str(render_value(a) + render_value(b))),
        },
        OperatorType::Minus => match (l, r) {
            (Val::Int(a), Val::Int(b)) => if fits_i32(a - b) {
                Ok(Val::Int(a - b))
            } else {
                Err(ErrV::IntegerOverflow)
            },
            (a, b) => Err(ErrV::ExpectedTwoIntegers { left: a, right: b }),
        },
        OperatorType::Or => Err(ErrV::UnsupportedOperator { operator: op }),
        OperatorType::And => Err(ErrV::UnsupportedOperator { operator: op }),
        OperatorType::Bang => Err(ErrV::UnsupportedOperator { operator: op }),
    }
}

/// What a unary operator yields: `-` negates an integer, `!` negates a
/// boolean.
pub open spec fn apply_unary_operator(op: OperatorType, v: Val) -> Result<Val, ErrV> {
    match op {
        OperatorType::Minus => match v {
            Val::Int(i) => if fits_i32(-i) {
                Ok(Val::Int(-i))
            } else {
                Err(ErrV::IntegerOverflow)
            },
            other => Err(ErrV::ExpectedInteger { value: other }),
        },
        OperatorType::Bang => match v {
            Val::Bool(b) => Ok(Val::Bool(!b)),
            other => Err(ErrV::ExpectedBoolean { value: other }),
        },
        _ => Err(ErrV::UnsupportedOperator { operator: op }),
    }
}

/// What dispatching on a callable's implementation yields: natives run
/// their handler; invoking a user-defined body has no defined
/// behaviour and is reported as an error.
pub open spec fn apply_implementation(imp: ImpV, args: Seq<Val>) -> Result<Val, ErrV> {
    match imp {
        ImpV::Native(h) => native_spec(h, args),
        ImpV::User(body) => Err(ErrV::UserFunctionUnsupported),
    }
}

// ---------------------------------------------------------------------
// Expression evaluation: a total function of the environment and the
// expression.  Expressions never change the environment.
// ---------------------------------------------------------------------
pub open spec fn eval_expr(env: EnvV, e: ExprV) -> Result<Val, ErrV>
    decreases e,
{
    match e {
        ExprV::Logical { operator, left, right } => match eval_expr(env, *left) {
            Err(er) => Err(er),
            Ok(lv) => match operator {
                LogicalOperator::And => if lv != Val::Bool(true) {
                    Ok(Val::Bool(false))
                } else {
                    match eval_expr(env, *right) {
                        Err(er) => Err(er),
                        Ok(rv) => Ok(Val::Bool(rv == Val::Bool(true))),
                    }
                },
                LogicalOperator::Or => if lv == Val::Bool(true) {
                    Ok(Val::Bool(true))
                } else {
                    match eval_expr(env, *right) {
                        Err(er) => Err(er),
                        Ok(rv) => Ok(Val::Bool(rv == Val::Bool(true))),
                    }
                },
            },
        },
        ExprV::BiOperator { operator, left, right } => match eval_expr(env, *left) {
            Err(er) => Err(er),
            Ok(lv) => match eval_expr(env, *right) {
                Err(er) => Err(er),
                Ok(rv) => apply_bi_operator(operator, lv, rv),
            },
        },
        ExprV::UnaryOperator { operator, operand } => match eval_expr(env, *operand) {
            Err(er) => Err(er),
            Ok(v) => apply_unary_operator(operator, v),
        },
        ExprV::NumberLiteral { value } => match parse_i32_spec(value) {
            Some(i) => Ok(Val::Int(i)),
            None => Err(ErrV::CannotParseInteger { text: value }),
        },
        ExprV::StringLiteral { value } => Ok(Val::Str(value)),
        ExprV::BooleanLiteral { value } => Ok(Val::Bool(value)),
        ExprV::Symbol { name } => match spec_lookup(env, name) {
            Some(v) => Ok(v),
            None => Err(ErrV::UndefinedVariable { name }),
        },
        ExprV::Call { callee, arguments } => match eval_expr(env, *callee) {
            Err(er) => Err(er),
            Ok(cv) => match cv {
                Val::Func { arity, imp } => if arguments.len() != arity as int {
                    Err(
                        ErrV::ArityMismatch {
                            expected: arity,
                            actual: arguments.len() as usize,
                        },
                    )
                } else {
                    match eval_args(env, arguments) {
                        Err(er) => Err(er),
                        Ok(vals) => apply_implementation(imp, vals),
                    }
                },
                other => Err(ErrV::NotCallable { type_label: type_label_of(other) }),
            },
        },
    }
}

/// Evaluates argument expressions strictly left to right, stopping at
/// the first failure.
pub open spec fn eval_args(env: EnvV, es: Seq<ExprV>) -> Result<Seq<Val>, ErrV>
    decreases es,
{
    if es.len() == 0 {
        Ok(Seq::empty())
    } else {
        match eval_expr(env, es[0]) {
            Err(er) => Err(er),
            Ok(v) => match eval_args(env, es.drop_first()) {
                Err(er) => Err(er),
                Ok(rest) => Ok(seq![v] + rest),
            },
        }
    }
}

// ---------------------------------------------------------------------
// Statement evaluation, with fuel.  `None` means the fuel bound was
// reached; one unit is spent each time a `while` loops back.
// ---------------------------------------------------------------------
pub enum ClausesOut {
    NoMatch,
    Matched(Option<(EnvV, Result<(), ErrV>)>),
    CondErr(ErrV),
}

pub open spec fn eval_stmt(env: EnvV, s: StmtV, fuel: nat) -> Option<(EnvV, Result<(), ErrV>)>
    decreases fuel, s,
{
    match s {
        StmtV::Expression { expression } => match eval_expr(env, expression) {
            Ok(v) => Some((env, Ok(()))),
            Err(e) => Some((env, Err(e))),
        },
        StmtV::Declaration { name, expression } => match eval_expr(env, expression) {
            Err(e) => Some((env, Err(e))),
            Ok(v) => match spec_declare(env, name, v) {
                Some(env2) => Some((env2, Ok(()))),
                None => Some((env, Err(ErrV::AlreadyDefined { name }))),
            },
        },
        StmtV::Reassignment { name, expression } => match eval_expr(env, expression) {
            Err(e) => Some((env, Err(e))),
            Ok(v) => match spec_reassign(env, name, v) {
                Some(env2) => Some((env2, Ok(()))),
                None => Some((env, Err(ErrV::NotDefined { name }))),
            },
        },
        StmtV::Block { statements } => match eval_stmts(
            env.push(Map::empty()),
            statements,
            fuel,
        ) {
            None => None,
            Some((env2, r)) => Some((env2.drop_last(), r)),
        },
        StmtV::If { clauses, else_clause } => match eval_clauses(env, clauses, fuel) {
            ClausesOut::CondErr(e) => Some((env, Err(e))),
            ClausesOut::Matched(out) => out,
            ClausesOut::NoMatch => match else_clause {
                Some(b) => eval_stmt(env, *b, fuel),
                None => Some((env, Ok(()))),
            },
        },
        StmtV::While { condition, body } => match eval_expr(env, condition) {
            Err(e) => Some((env, Err(e))),
            Ok(v) => if v != Val::Bool(true) {
                Some((env, Ok(())))
            } else {
                match eval_stmt(env, *body, fuel) {
                    None => None,
                    Some((env2, Err(e))) => Some((env2, Err(e))),
                    Some((env2, Ok(()))) => if fuel == 0 {
                        None
                    } else {
                        eval_stmt(env2, s, (fuel - 1) as nat)
                    },
                }
            },
        },
    }
}

/// Evaluates statements in order, stopping at the first failure.
pub open spec fn eval_stmts(env: EnvV, ss: Seq<StmtV>, fuel: nat) -> Option<
    (EnvV, Result<(), ErrV>),
>
    decreases fuel, ss,
{
    if ss.len() == 0 {
        Some((env, Ok(())))
    } else {
        match eval_stmt(env, ss[0], fuel) {
            None => None,
            Some((env2, Err(e))) => Some((env2, Err(e))),
            Some((env2, Ok(()))) => eval_stmts(env2, ss.drop_first(), fuel),
        }
    }
}

/// Tries the conditional clauses in order; the first condition that is
/// exactly `true` selects its body.  Conditions do not change the
/// environment.
pub open spec fn eval_clauses(env: EnvV, clauses: Seq<ClauseV>, fuel: nat) -> ClausesOut
    decreases fuel, clauses,
{
    if clauses.len() == 0 {
        ClausesOut::NoMatch
    } else {
        match eval_expr(env, clauses[0].condition) {
            Err(e) => ClausesOut::CondErr(e),
            Ok(v) => if v == Val::Bool(true) {
                ClausesOut::Matched(eval_stmt(env, clauses[0].statement, fuel))
            } else {
                eval_clauses(env, clauses.drop_first(), fuel)
            },
        }
    }
}

/// What one whole run yields: the statements are evaluated against a
/// single global frame, and the frame's final contents are handed back
/// together with the outcome — also when the outcome is a failure.
pub open spec fn spec_run(globals: FrameV, stmts: Seq<StmtV>, fuel: nat) -> Option<
    (FrameV, Result<(), ErrV>),
> {
    match eval_stmts(seq![globals], stmts, fuel) {
        None => None,
        Some((env, r)) => Some((env[0], r)),
    }
}

// ---------------------------------------------------------------------
// Fuel is monotone: once the fuel suffices, more fuel does not change
// the outcome.
// ---------------------------------------------------------------------
pub proof fn lemma_eval_stmt_mono(env: EnvV, s: StmtV, f1: nat, f2: nat)
    requires
        f1 <= f2,
        eval_stmt(env, s, f1) is Some,
    ensures
        eval_stmt(env, s, f2) == eval_stmt(env, s, f1),
    decreases f1, s,
{
    match s {
        StmtV::Block { statements } => {
            lemma_eval_stmts_mono(env.push(Map::empty()), statements, f1, f2);
        },
        StmtV::If { clauses, else_clause } => {
            lemma_eval_clauses_mono(env, clauses, f1, f2);
            match eval_clauses(env, clauses, f1) {
                ClausesOut::NoMatch => {
                    match else_clause {
                        Some(b) => {
                            lemma_eval_stmt_mono(env, *b, f1, f2);
                        },
                        None => {},
                    }
                },
                _ => {},
            }
        },
        StmtV::While { condition, body } => {
            match eval_expr(env, condition) {
                Err(e) => {},
                Ok(v) => {
                    if v == Val::Bool(true) {
                        lemma_eval_stmt_mono(env, *body, f1, f2);
                        match eval_stmt(env, *body, f1) {
                            Some((env2, Ok(()))) => {
                                lemma_eval_stmt_mono(env2, s, (f1 - 1) as nat, (f2 - 1) as nat);
                            },
                            _ => {},
                        }
                    }
                },
            }
        },
        _ => {},
    }
}

pub proof fn lemma_eval_stmts_mono(env: EnvV, ss: Seq<StmtV>, f1: nat, f2: nat)
    requires
        f1 <= f2,
        eval_stmts(env, ss, f1) is Some,
    ensures
        eval_stmts(env, ss, f2) == eval_stmts(env, ss, f1),
    decreases f1, ss,
{
    if ss.len() > 0 {
        lemma_eval_stmt_mono(env, ss[0], f1, f2);
        match eval_stmt(env, ss[0], f1) {
            Some((env2, Ok(()))) => {
                lemma_eval_stmts_mono(env2, ss.drop_first(), f1, f2);
            },
            _ => {},
        }
    }
}

pub proof fn lemma_eval_clauses_mono(env: EnvV, clauses: Seq<ClauseV>, f1: nat, f2: nat)
    requires
        f1 <= f2,
        !(eval_clauses(env, clauses, f1) matches ClausesOut::Matched(None)),
    ensures
        eval_clauses(env, clauses, f2) == eval_clauses(env, clauses, f1),
    decreases f1, clauses,
{
    if clauses.len() > 0 {
        match eval_expr(env, clauses[0].condition) {
            Err(e) => {},
            Ok(v) => {
                if v == Val::Bool(true) {
                    lemma_eval_stmt_mono(env, clauses[0].statement, f1, f2);
                } else {
                    lemma_eval_clauses_mono(env, clauses.drop_first(), f1, f2);
                }
            },
        }
    }
}

// ---------------------------------------------------------------------
// Statement evaluation preserves the number of frames.
// ---------------------------------------------------------------------
pub proof fn lemma_spec_reassign_len(env: EnvV, name: Seq<char>, v: Val)
    ensures
        match spec_reassign(env, name, v) {
            Some(e2) => e2.len() == env.len(),
            None => true,
        },
    decreases env,
{
    if env.len() > 0 && !env.last().contains_key(name) {
        lemma_spec_reassign_len(env.drop_last(), name, v);
    }
}

pub proof fn lemma_eval_stmt_len(env: EnvV, s: StmtV, fuel: nat)
    ensures
        match eval_stmt(env, s, fuel) {
            Some((e2, r)) => e2.len() == env.len(),
            None => true,
        },
    decreases fuel, s,
{
    match s {
        StmtV::Reassignment { name, expression } => {
            match eval_expr(env, expression) {
                Ok(v) => {
                    lemma_spec_reassign_len(env, name, v);
                },
                Err(e) => {},
            }
        },
        StmtV::Block { statements } => {
            lemma_eval_stmts_len(env.push(Map::empty()), statements, fuel);
        },
        StmtV::If { clauses, else_clause } => {
            lemma_eval_clauses_len(env, clauses, fuel);
            match eval_clauses(env, clauses, fuel) {
                ClausesOut::NoMatch => {
                    match else_clause {
                        Some(b) => {
                            lemma_eval_stmt_len(env, *b, fuel);
                        },
                        None => {},
                    }
                },
                _ => {},
            }
        },
        StmtV::While { condition, body } => {
            match eval_expr(env, condition) {
                Err(e) => {},
                Ok(v) => {
                    if v == Val::Bool(true) {
                        lemma_eval_stmt_len(env, *body, fuel);
                        match eval_stmt(env, *body, fuel) {
                            Some((env2, Ok(()))) => {
                                if fuel > 0 {
                                    lemma_eval_stmt_len(env2, s, (fuel - 1) as nat);
                                }
                            },
                            _ => {},
                        }
                    }
                },
            }
        },
        _ => {},
    }
}

pub proof fn lemma_eval_stmts_len(env: EnvV, ss: Seq<StmtV>, fuel: nat)
    ensures
        match eval_stmts(env, ss, fuel) {
            Some((e2, r)) => e2.len() == env.len(),
            None => true,
        },
    decreases fuel, ss,
{
    if ss.len() > 0 {
        lemma_eval_stmt_len(env, ss[0], fuel);
        match eval_stmt(env, ss[0], fuel) {
            Some((env2, Ok(()))) => {
                lemma_eval_stmts_len(env2, ss.drop_first(), fuel);
            },
            _ => {},
        }
    }
}

pub proof fn lemma_eval_clauses_len(env: EnvV, clauses: Seq<ClauseV>, fuel: nat)
    ensures
        match eval_clauses(env, clauses, fuel) {
            ClausesOut::Matched(Some((e2, r))) => e2.len() == env.len(),
            _ => true,
        },
    decreases fuel, clauses,
{
    if clauses.len() > 0 {
        match eval_expr(env, clauses[0].condition) {
            Err(e) => {},
            Ok(v) => {
                if v == Val::Bool(true) {
                    lemma_eval_stmt_len(env, clauses[0].statement, fuel);
                } else {
                    lemma_eval_clauses_len(env, clauses.drop_first(), fuel);
                }
            },
        }
    }
}

// ---------------------------------------------------------------------
// Entry points.
// ---------------------------------------------------------------------
/// The result of one evaluation run: the global frame's bindings at the
/// moment evaluation stopped — on success or on the first failure — and
/// the outcome.  A caller such as a read-eval-print loop can keep using
/// the updated bindings even after a failed run.
pub struct InterpreterEndState<R> {
    pub globals: Bindings,
    pub result: Result<R, RuntimeError>,
}

/// Evaluates the statements with a fresh global frame holding only the
/// builtins.
pub fn run(statements: &Vec<AstStatement>) -> (r: InterpreterEndState<()>)
    ensures
        r.globals.wf(),
        ({
            ||| exists|fuel: nat|
                #[trigger] spec_run(function::builtins_env(), stmts_view(statements@), fuel)
                    == Some((r.globals@, unit_result_view(r.result)))
            ||| {
                &&& r.result matches Err(e) && e@ == ErrV::LoopLimitReached
                &&& forall|fuel: nat|
                    fuel <= u64::MAX ==> (#[trigger] spec_run(
                        function::builtins_env(),
                        stmts_view(statements@),
                        fuel,
                    )) is None
            }
        }),
{
    let globals = Bindings::new();
    proof {
        assert(function::builtins_env().union_prefer_right(globals@)
            =~= function::builtins_env());
    }
    run_with_state(statements, globals)
}

/// Evaluates the statements with a global frame holding the builtins
/// merged with the caller-supplied bindings; used by a read-eval-print
/// loop to carry state across successive inputs.
#[verifier::loop_isolation(false)]
#[verifier::rlimit(50)]
pub fn run_with_state(statements: &Vec<AstStatement>, globals: Bindings) -> (r:
    InterpreterEndState<()>)
    requires
        globals.wf(),
    ensures
        r.globals.wf(),
        ({
            ||| exists|fuel: nat|
                #[trigger] spec_run(
                    function::builtins_env().union_prefer_right(globals@),
                    stmts_view(statements@),
                    fuel,
                ) == Some((r.globals@, unit_result_view(r.result)))
            ||| {
                &&& r.result matches Err(e) && e@ == ErrV::LoopLimitReached
                &&& forall|fuel: nat|
                    fuel <= u64::MAX ==> (#[trigger] spec_run(
                        function::builtins_env().union_prefer_right(globals@),
                        stmts_view(statements@),
                        fuel,
                    )) is None
            }
        }),
{
    let mut stack = Stack::new(globals);
    let ghost env0 = stack@;
    let ghost allv = stmts_view(statements@);
    proof {
        lemma_stmts_view_len(statements@);
        assert(allv.subrange(0, allv.len() as int) =~= allv);
    }
    let mut i: usize = 0;
    let ghost mut used: nat = 0;
    while i < statements.len()
        invariant
            stack.wf(),
            stack@.len() == env0.len(),
            i <= statements@.len(),
            forall|f: nat|
                (#[trigger] eval_stmts(env0, allv, f)) == eval_stmts(
                    stack@,
                    allv.subrange(i as int, allv.len() as int),
                    f,
                ) || (eval_stmts(env0, allv, f) is None && f < used),
        decreases statements@.len() - i,
    {
        let ghost cur = stack@;
        let ghost suffix = allv.subrange(i as int, allv.len() as int);
        proof {
            lemma_stmts_size_element(statements@, i as int);
            lemma_stmts_view_index(statements@, i as int);
            assert(suffix[0] == allv[i as int]);
            assert(suffix.drop_first() =~= allv.subrange(i + 1 as int, allv.len() as int));
        }
        match evaluate_statement(&mut stack, &statements[i]) {
            Ok(()) => {
                proof {
                    if exists|fb: nat|
                        #[trigger] eval_stmt(cur, allv[i as int], fb) == Some(
                            (stack@, Ok::<(), ErrV>(())),
                        ) {
                        let fb = choose|fb: nat|
                            #[trigger] eval_stmt(cur, allv[i as int], fb) == Some(
                                (stack@, Ok::<(), ErrV>(())),
                            );
                        let used2 = used + fb + 1;
                        assert forall|f: nat|
                            (#[trigger] eval_stmts(env0, allv, f)) == eval_stmts(
                                stack@,
                                allv.subrange(i + 1 as int, allv.len() as int),
                                f,
                            ) || (eval_stmts(env0, allv, f) is None && f < used2) by {
                            if !(eval_stmts(env0, allv, f) is None && f < used) {
                                assert(eval_stmts(env0, allv, f) == eval_stmts(cur, suffix, f));
                                match eval_stmt(cur, allv[i as int], f) {
                                    None => {
                                        assert(f < fb) by {
                                            if f >= fb {
                                                lemma_eval_stmt_mono(cur, allv[i as int], fb, f);
                                            }
                                        }
                                    },
                                    Some(out) => {
                                        if f <= fb {
                                            lemma_eval_stmt_mono(cur, allv[i as int], f, fb);
                                        } else {
                                            lemma_eval_stmt_mono(cur, allv[i as int], fb, f);
                                        }
                                        assert(out == (stack@, Ok::<(), ErrV>(())));
                                    },
                                }
                            }
                        }
                        used = used2;
                    } else {
                        assert(false);
                    }
                }
            },
            Err(e) => {
                let ghost new_env = stack@;
                proof {
                    if exists|fb: nat|
                        #[trigger] eval_stmt(cur, allv[i as int], fb) == Some(
                            (new_env, Err::<(), ErrV>(e@)),
                        ) {
                        let fb = choose|fb: nat|
                            #[trigger] eval_stmt(cur, allv[i as int], fb) == Some(
                                (new_env, Err::<(), ErrV>(e@)),
                            );
                        let fw = used + fb;
                        lemma_eval_stmt_mono(cur, allv[i as int], fb, fw);
                        assert(eval_stmts(cur, suffix, fw) == Some((new_env, Err::<(), ErrV>(e@))));
                        assert(eval_stmts(env0, allv, fw) == Some((new_env, Err::<(), ErrV>(e@))));
                        assert(spec_run(env0[0], allv, fw) == Some(
                            (new_env[0], Err::<(), ErrV>(e@)),
                        ));
                    } else {
                        assert(e@ == ErrV::LoopLimitReached);
                        assert forall|f: nat|
                            f <= u64::MAX implies (#[trigger] spec_run(env0[0], allv, f))
                            is None by {
                            assert(eval_stmt(cur, allv[i as int], f) is None);
                            assert(eval_stmts(env0, allv, f) is None);
                        }
                    }
                    assert(seq![env0[0]] =~= env0);
                }
                return InterpreterEndState { globals: stack.dismantle(), result: Err(e) };
            },
        }
        i = i + 1;
    }
    proof {
        let cur = stack@;
        assert(allv.subrange(allv.len() as int, allv.len() as int) =~= Seq::<StmtV>::empty());
        assert(eval_stmts(cur, allv.subrange(allv.len() as int, allv.len() as int), used) == Some(
            (cur, Ok::<(), ErrV>(())),
        ));
        assert(!(eval_stmts(env0, allv, used) is None && used < used));
        assert(eval_stmts(env0, allv, used) == Some((cur, Ok::<(), ErrV>(()))));
        assert(seq![env0[0]] =~= env0);
        assert(spec_run(env0[0], allv, used) == Some((cur[0], Ok::<(), ErrV>(()))));
    }
    InterpreterEndState { globals: stack.dismantle(), result: Ok(()) }
}

/// Evaluates a single expression against a global snapshot.  The
/// globals are handed back unchanged: expressions never alter the
/// environment.
pub fn run_expression(globals: Bindings, statement: &AstExpression) -> (r: InterpreterEndState<
    RuntimeValue,
>)
    requires
        globals.wf(),
    ensures
        r.globals.wf(),
        r.globals@ == function::builtins_env().union_prefer_right(globals@),
        result_view(r.result) == eval_expr(
            seq![function::builtins_env().union_prefer_right(globals@)],
            statement@,
        ),
{
    let mut stack = Stack::new(globals);
    let result = evaluate_expression(&mut stack, statement);
    InterpreterEndState { globals: stack.dismantle(), result }
}

// ---------------------------------------------------------------------
// The executable evaluator.
// ---------------------------------------------------------------------
/// Reports that an integer was expected where `value` appeared.
fn error_expected_integer(value: &RuntimeValue) -> (r: Result<RuntimeValue, RuntimeError>)
    ensures
        result_view(r) == Err::<Val, ErrV>(ErrV::ExpectedInteger { value: value@ }),
{
    Err(RuntimeError::ExpectedInteger { value: value.duplicate() })
}

/// Reports that a boolean was expected where `value` appeared.
fn error_expected_boolean(value: &RuntimeValue) -> (r: Result<RuntimeValue, RuntimeError>)
    ensures
        result_view(r) == Err::<Val, ErrV>(ErrV::ExpectedBoolean { value: value@ }),
{
    Err(RuntimeError::ExpectedBoolean { value: value.duplicate() })
}

/// Insists that both operands are integers.
fn match_two_integers(left: &RuntimeValue, right: &RuntimeValue) -> (r: Result<
    (i32, i32),
    RuntimeError,
>)
    ensures
        match r {
            Ok((a, b)) => left@ == Val::Int(a as int) && right@ == Val::Int(b as int),
            Err(e) => {
                &&& !(left@ is Int && right@ is Int)
                &&& e@ == ErrV::ExpectedTwoIntegers { left: left@, right: right@ }
            },
        },
{
    match (left, right) {
        (RuntimeValue::Integer(l), RuntimeValue::Integer(r)) => Ok((*l, *r)),
        _ => Err(
            RuntimeError::ExpectedTwoIntegers {
                left: left.duplicate(),
                right: right.duplicate(),
            },
        ),
    }
}

/// Applies a binary operator to two evaluated operands.
fn apply_binary(operator: &OperatorType, left_value: RuntimeValue, right_value: RuntimeValue) -> (r:
    Result<RuntimeValue, RuntimeError>)
    ensures
        result_view(r) == apply_bi_operator(*operator, left_value@, right_value@),
{
    match operator {
        OperatorType::Equality => Ok(RuntimeValue::Boolean(left_value.equals(&right_value))),
        OperatorType::Inequality => Ok(RuntimeValue::Boolean(!left_value.equals(&right_value))),
        OperatorType::LessThan => {
            let (l, r) = match match_two_integers(&left_value, &right_value) {
                Ok(p) => p,
                Err(e) => {
                    return Err(e);
                },
            };
            Ok(RuntimeValue::Boolean(l < r))
        },
        OperatorType::LessThanOrEqual => {
            let (l, r) = match match_two_integers(&left_value, &right_value) {
                Ok(p) => p,
                Err(e) => {
                    return Err(e);
                },
            };
            Ok(RuntimeValue::Boolean(l <= r))
        },
        OperatorType::GreaterThan => {
            let (l, r) = match match_two_integers(&left_value, &right_value) {
                Ok(p) => p,
                Err(e) => {
                    return Err(e);
                },
            };
            Ok(RuntimeValue::Boolean(l > r))
        },
        OperatorType::GreaterThanOrEqual => {
            let (l, r) = match match_two_integers(&left_value, &right_value) {
                Ok(p) => p,
                Err(e) => {
                    return Err(e);
                },
            };
            Ok(RuntimeValue::Boolean(l >= r))
        },
        OperatorType::Multiplication => {
            let (l, r) = match match_two_integers(&left_value, &right_value) {
                Ok(p) => p,
                Err(e) => {
                    return Err(e);
                },
            };
            match l.checked_mul(r) {
                Some(v) => Ok(RuntimeValue::Integer(v)),
                None => Err(RuntimeError::IntegerOverflow),
            }
        },
        OperatorType::Division => {
            let (l, r) = match match_two_integers(&left_value, &right_value) {
                Ok(p) => p,
                Err(e) => {
                    return Err(e);
                },
            };
            if r == 0 {
                Err(RuntimeError::DivisionByZero)
            } else {
                match l.checked_div(r) {
                    Some(v) => Ok(RuntimeValue::Integer(v)),
                    None => Err(RuntimeError::IntegerOverflow),
                }
            }
        },
        OperatorType::Modulus => {
            let (l, r) = match match_two_integers(&left_value, &right_value) {
                Ok(p) => p,
                Err(e) => {
                    return Err(e);
                },
            };
            if r == 0 {
                Err(RuntimeError::DivisionByZero)
            } else {
                match l.checked_rem(r) {
                    Some(v) => Ok(RuntimeValue::Integer(v)),
                    None => Err(RuntimeError::IntegerOverflow),
                }
            }
        },
        OperatorType::Plus => {
            match (&left_value, &right_value) {
                (RuntimeValue::Integer(l), RuntimeValue::Integer(r)) => match l.checked_add(*r) {
                    Some(v) => Ok(RuntimeValue::Integer(v)),
                    None => Err(RuntimeError::IntegerOverflow),
                },
                _ => {
                    let mut rendered = left_value.value_as_string();
                    let right_rendered = right_value.value_as_string();
                    crate::text::push_str(&mut rendered, right_rendered.as_str());
                    Ok(RuntimeValue::String(rendered))
                },
            }
        },
        OperatorType::Minus => {
            let (l, r) = match match_two_integers(&left_value, &right_value) {
                Ok(p) => p,
                Err(e) => {
                    return Err(e);
                },
            };
            match l.checked_sub(r) {
                Some(v) => Ok(RuntimeValue::Integer(v)),
                None => Err(RuntimeError::IntegerOverflow),
            }
        },
        OperatorType::Or => Err(RuntimeError::UnsupportedOperator { operator: *operator }),
        OperatorType::And => Err(RuntimeError::UnsupportedOperator { operator: *operator }),
        OperatorType::Bang => Err(RuntimeError::UnsupportedOperator { operator: *operator }),
    }
}

/// Applies a unary operator to an evaluated operand.
fn apply_unary(operator: &OperatorType, operand_value: RuntimeValue) -> (r: Result<
    RuntimeValue,
    RuntimeError,
>)
    ensures
        result_view(r) == apply_unary_operator(*operator, operand_value@),
{
    match operator {
        OperatorType::Minus => match &operand_value {
            RuntimeValue::Integer(i) => {
                if *i == i32::MIN {
                    Err(RuntimeError::IntegerOverflow)
                } else {
                    Ok(RuntimeValue::Integer(-(*i)))
                }
            },
            _ => error_expected_integer(&operand_value),
        },
        OperatorType::Bang => match &operand_value {
            RuntimeValue::Boolean(b) => Ok(RuntimeValue::Boolean(!*b)),
            _ => error_expected_boolean(&operand_value),
        },
        _ => Err(RuntimeError::UnsupportedOperator { operator: *operator }),
    }
}

/// Evaluates one expression.  Expressions never change the environment;
/// the result is exactly what the mathematical evaluator yields.
pub fn evaluate_expression(stack: &mut Stack, element: &AstExpression) -> (r: Result<
    RuntimeValue,
    RuntimeError,
>)
    requires
        old(stack).wf(),
    ensures
        final(stack).wf(),
        final(stack)@ == old(stack)@,
        result_view(r) == eval_expr(old(stack)@, element@),
    decreases expr_size(*element), 0nat,
{
    match element {
        AstExpression::Logical { operator, left, right } => {
            let left_value = match evaluate_expression(stack, &**left) {
                Ok(v) => v,
                Err(e) => {
                    return Err(e);
                },
            };
            let left_true = match &left_value {
                RuntimeValue::Boolean(b) => *b,
                _ => false,
            };
            proof {
                assert(left_true == (left_value@ == Val::Bool(true)));
            }
            match operator {
                LogicalOperator::And => {
                    if !left_true {
                        return Ok(RuntimeValue::Boolean(false));
                    }
                    let right_value = match evaluate_expression(stack, &**right) {
                        Ok(v) => v,
                        Err(e) => {
                            return Err(e);
                        },
                    };
                    let right_true = match &right_value {
                        RuntimeValue::Boolean(b) => *b,
                        _ => false,
                    };
                    proof {
                        assert(right_true == (right_value@ == Val::Bool(true)));
                    }
                    Ok(RuntimeValue::Boolean(right_true))
                },
                LogicalOperator::Or => {
                    if left_true {
                        return Ok(RuntimeValue::Boolean(true));
                    }
                    let right_value = match evaluate_expression(stack, &**right) {
                        Ok(v) => v,
                        Err(e) => {
                            return Err(e);
                        },
                    };
                    let right_true = match &right_value {
                        RuntimeValue::Boolean(b) => *b,
                        _ => false,
                    };
                    proof {
                        assert(right_true == (right_value@ == Val::Bool(true)));
                    }
                    Ok(RuntimeValue::Boolean(right_true))
                },
            }
        },
        AstExpression::BiOperator { operator, left, right } => {
            let left_value = match evaluate_expression(stack, &**left) {
                Ok(v) => v,
                Err(e) => {
                    return Err(e);
                },
            };
            let right_value = match evaluate_expression(stack, &**right) {
                Ok(v) => v,
                Err(e) => {
                    return Err(e);
                },
            };
            apply_binary(operator, left_value, right_value)
        },
        AstExpression::UnaryOperator { operator, operand } => {
            let operand_value = match evaluate_expression(stack, &**operand) {
                Ok(v) => v,
                Err(e) => {
                    return Err(e);
                },
            };
            apply_unary(operator, operand_value)
        },
        AstExpression::NumberLiteral { value } => match crate::text::parse_i32(value.as_str()) {
            Some(number) => Ok(RuntimeValue::Integer(number)),
            None => Err(RuntimeError::CannotParseInteger { text: value.clone() }),
        },
        AstExpression::StringLiteral { value } => Ok(RuntimeValue::String(value.clone())),
        AstExpression::BooleanLiteral { value } => Ok(RuntimeValue::Boolean(*value)),
        AstExpression::Symbol { name } => match stack.get(name.as_str()) {
            None => Err(RuntimeError::UndefinedVariable { name: name.clone() }),
            Some(value) => Ok(value.duplicate()),
        },
        AstExpression::Call { callee, arguments } => function::invoke_function(
            stack,
            &**callee,
            arguments,
        ),
    }
}

/// Evaluates one statement.  On success or failure the outcome and the
/// final environment are exactly what the mathematical evaluator
/// yields for some fuel.  A `while` that would need more than
/// `u64::MAX` loop steps stops with `LoopLimitReached`; that case is
/// provably one that no fuel up to `u64::MAX` suffices for, so no
/// realizable execution is cut short.
#[verifier::loop_isolation(false)]
#[verifier::rlimit(100)]
pub fn evaluate_statement(stack: &mut Stack, statement: &AstStatement) -> (r: Result<
    (),
    RuntimeError,
>)
    requires
        old(stack).wf(),
    ensures
        final(stack).wf(),
        final(stack)@.len() == old(stack)@.len(),
        ({
            ||| exists|fuel: nat|
                #[trigger] eval_stmt(old(stack)@, statement@, fuel) == Some(
                    (final(stack)@, unit_result_view(r)),
                )
            ||| {
                &&& r matches Err(e) && e@ == ErrV::LoopLimitReached
                &&& forall|fuel: nat|
                    fuel <= u64::MAX ==> (#[trigger] eval_stmt(
                        old(stack)@,
                        statement@,
                        fuel,
                    )) is None
            }
        }),
    decreases stmt_size(*statement),
{
    let ghost env0 = stack@;
    proof {
        crate::interpreter::stack::lemma_stack_len(stack);
    }
    match statement {
        AstStatement::Expression { expression } => {
            match evaluate_expression(stack, expression) {
                Ok(v) => {
                    proof {
                        assert(eval_stmt(env0, statement@, 0) == Some(
                            (env0, unit_result_view(Ok::<(), RuntimeError>(()))),
                        ));
                    }
                    Ok(())
                },
                Err(e) => {
                    proof {
                        assert(eval_stmt(env0, statement@, 0) == Some(
                            (env0, unit_result_view(Err::<(), RuntimeError>(e))),
                        ));
                    }
                    Err(e)
                },
            }
        },
        AstStatement::Declaration { name, expression } => {
            let value = match evaluate_expression(stack, expression) {
                Ok(v) => v,
                Err(e) => {
                    proof {
                        assert(eval_stmt(env0, statement@, 0) == Some(
                            (env0, unit_result_view(Err::<(), RuntimeError>(e))),
                        ));
                    }
                    return Err(e);
                },
            };
            let r = stack.declare(name.clone(), value);
            proof {
                assert(eval_stmt(env0, statement@, 0) == Some((stack@, unit_result_view(r))));
            }
            r
        },
        AstStatement::Reassignment { name, expression } => {
            let value = match evaluate_expression(stack, expression) {
                Ok(v) => v,
                Err(e) => {
                    proof {
                        assert(eval_stmt(env0, statement@, 0) == Some(
                            (env0, unit_result_view(Err::<(), RuntimeError>(e))),
                        ));
                    }
                    return Err(e);
                },
            };
            let r = stack.reassign(name, value);
            proof {
                assert(eval_stmt(env0, statement@, 0) == Some((stack@, unit_result_view(r))));
            }
            r
        },
        AstStatement::Block { statements } => {
            stack.push_frame();
            let ghost envb = stack@;
            let ghost allv = stmts_view(statements@);
            proof {
                lemma_stmts_view_len(statements@);
                assert(envb =~= env0.push(Map::empty()));
                assert(allv.subrange(0, allv.len() as int) =~= allv);
            }
            let mut i: usize = 0;
            let ghost mut used: nat = 0;
            while i < statements.len()
                invariant
                    stack.wf(),
                    stack@.len() == envb.len(),
                    i <= statements@.len(),
                    forall|f: nat|
                        (#[trigger] eval_stmts(envb, allv, f)) == eval_stmts(
                            stack@,
                            allv.subrange(i as int, allv.len() as int),
                            f,
                        ) || (eval_stmts(envb, allv, f) is None && f < used),
                decreases statements@.len() - i,
            {
                let ghost cur = stack@;
                let ghost suffix = allv.subrange(i as int, allv.len() as int);
                proof {
                    lemma_stmts_size_element(statements@, i as int);
                    lemma_stmts_view_index(statements@, i as int);
                    assert(suffix[0] == allv[i as int]);
                    assert(suffix.drop_first() =~= allv.subrange(
                        i + 1 as int,
                        allv.len() as int,
                    ));
                }
                match evaluate_statement(stack, &statements[i]) {
                    Ok(()) => {
                        proof {
                            if exists|fb: nat|
                                #[trigger] eval_stmt(cur, allv[i as int], fb) == Some(
                                    (stack@, Ok::<(), ErrV>(())),
                                ) {
                                let fb = choose|fb: nat|
                                    #[trigger] eval_stmt(cur, allv[i as int], fb) == Some(
                                        (stack@, Ok::<(), ErrV>(())),
                                    );
                                let used2 = used + fb + 1;
                                assert forall|f: nat|
                                    (#[trigger] eval_stmts(envb, allv, f)) == eval_stmts(
                                        stack@,
                                        allv.subrange(i + 1 as int, allv.len() as int),
                                        f,
                                    ) || (eval_stmts(envb, allv, f) is None && f < used2) by {
                                    if !(eval_stmts(envb, allv, f) is None && f < used) {
                                        assert(eval_stmts(envb, allv, f) == eval_stmts(
                                            cur,
                                            suffix,
                                            f,
                                        ));
                                        match eval_stmt(cur, allv[i as int], f) {
                                            None => {
                                                assert(f < fb) by {
                                                    if f >= fb {
                                                        lemma_eval_stmt_mono(
                                                            cur,
                                                            allv[i as int],
                                                            fb,
                                                            f,
                                                        );
                                                    }
                                                }
                                            },
                                            Some(out) => {
                                                if f <= fb {
                                                    lemma_eval_stmt_mono(
                                                        cur,
                                                        allv[i as int],
                                                        f,
                                                        fb,
                                                    );
                                                } else {
                                                    lemma_eval_stmt_mono(
                                                        cur,
                                                        allv[i as int],
                                                        fb,
                                                        f,
                                                    );
                                                }
                                                assert(out == (stack@, Ok::<(), ErrV>(())));
                                            },
                                        }
                                    }
                                }
                                used = used2;
                            } else {
                                assert(false);
                            }
                        }
                    },
                    Err(e) => {
                        let ghost new_env = stack@;
                        proof {
                            assert(statement@ == StmtV::Block { statements: allv });
                        }
                        stack.pop_frame();
                        proof {
                            if exists|fb: nat|
                                #[trigger] eval_stmt(cur, allv[i as int], fb) == Some(
                                    (new_env, Err::<(), ErrV>(e@)),
                                ) {
                                let fb = choose|fb: nat|
                                    #[trigger] eval_stmt(cur, allv[i as int], fb) == Some(
                                        (new_env, Err::<(), ErrV>(e@)),
                                    );
                                let fw = used + fb;
                                lemma_eval_stmt_mono(cur, allv[i as int], fb, fw);
                                assert(eval_stmts(cur, suffix, fw) == Some(
                                    (new_env, Err::<(), ErrV>(e@)),
                                ));
                                assert(eval_stmts(envb, allv, fw) == Some(
                                    (new_env, Err::<(), ErrV>(e@)),
                                ));
                                assert(eval_stmt(env0, statement@, fw) == Some(
                                    (new_env.drop_last(), Err::<(), ErrV>(e@)),
                                ));
                                assert(eval_stmt(env0, statement@, fw) == Some(
                                    (stack@, unit_result_view(Err::<(), RuntimeError>(e))),
                                ));
                            } else {
                                assert(e@ == ErrV::LoopLimitReached);
                                assert forall|f: nat|
                                    f <= u64::MAX implies (#[trigger] eval_stmt(
                                    env0,
                                    statement@,
                                    f,
                                )) is None by {
                                    assert(eval_stmt(cur, allv[i as int], f) is None);
                                    assert(eval_stmts(envb, allv, f) is None);
                                }
                            }
                        }
                        return Err(e);
                    },
                }
                i = i + 1;
            }
            let ghost cur = stack@;
            proof {
                assert(statement@ == StmtV::Block { statements: allv });
                assert(allv.subrange(allv.len() as int, allv.len() as int)
                    =~= Seq::<StmtV>::empty());
                assert(eval_stmts(cur, allv.subrange(allv.len() as int, allv.len() as int), used)
                    == Some((cur, Ok::<(), ErrV>(()))));
                assert(!(eval_stmts(envb, allv, used) is None && used < used));
                assert(eval_stmts(envb, allv, used) == Some((cur, Ok::<(), ErrV>(()))));
            }
            stack.pop_frame();
            proof {
                assert(eval_stmt(env0, statement@, used) == Some(
                    (stack@, unit_result_view(Ok::<(), RuntimeError>(()))),
                ));
            }
            Ok(())
        },
        AstStatement::If { conditional_clauses, else_clause } => {
            let ghost cv = clauses_view(conditional_clauses@);
            proof {
                lemma_clauses_view_len(conditional_clauses@);
                assert(cv.subrange(0, cv.len() as int) =~= cv);
                assert(statement@ == StmtV::If {
                    clauses: cv,
                    else_clause: match else_clause {
                        Some(b) => Some(Box::new(stmt_view(**b))),
                        None => None,
                    },
                });
            }
            let mut i: usize = 0;
            while i < conditional_clauses.len()
                invariant
                    stack.wf(),
                    stack@ == env0,
                    i <= conditional_clauses@.len(),
                    forall|f: nat|
                        (#[trigger] eval_clauses(env0, cv, f)) == eval_clauses(
                            env0,
                            cv.subrange(i as int, cv.len() as int),
                            f,
                        ),
                decreases conditional_clauses@.len() - i,
            {
                let ghost suffix = cv.subrange(i as int, cv.len() as int);
                proof {
                    lemma_clauses_size_element(conditional_clauses@, i as int);
                    lemma_clauses_view_index(conditional_clauses@, i as int);
                    assert(suffix[0] == cv[i as int]);
                    assert(suffix.drop_first() =~= cv.subrange(i + 1 as int, cv.len() as int));
                }
                let clause = &conditional_clauses[i];
                let condition_value = match evaluate_expression(stack, &clause.condition) {
                    Ok(v) => v,
                    Err(e) => {
                        proof {
                            assert(eval_clauses(env0, cv, 0) == ClausesOut::CondErr(e@));
                            assert(eval_stmt(env0, statement@, 0) == Some(
                                (env0, unit_result_view(Err::<(), RuntimeError>(e))),
                            ));
                        }
                        return Err(e);
                    },
                };
                let condition_true = match &condition_value {
                    RuntimeValue::Boolean(b) => *b,
                    _ => false,
                };
                proof {
                    assert(condition_true == (condition_value@ == Val::Bool(true)));
                }
                if condition_true {
                    let body_result = evaluate_statement(stack, &clause.statement);
                    proof {
                        assert(*clause == conditional_clauses@[i as int]);
                        assert(clause.statement@ == cv[i as int].statement);
                        let res = unit_result_view(body_result);
                        if exists|fb: nat|
                            #[trigger] eval_stmt(env0, clause.statement@, fb) == Some(
                                (stack@, res),
                            ) {
                            let fb = choose|fb: nat|
                                #[trigger] eval_stmt(env0, clause.statement@, fb) == Some(
                                    (stack@, res),
                                );
                            assert(eval_clauses(env0, cv, fb) == eval_clauses(env0, suffix, fb));
                            assert(eval_expr(env0, suffix[0].condition) == Ok::<Val, ErrV>(
                                condition_value@,
                            ));
                            assert(eval_stmt(env0, suffix[0].statement, fb) == Some(
                                (stack@, res),
                            ));
                            assert(eval_clauses(env0, suffix, fb) == ClausesOut::Matched(
                                Some((stack@, res)),
                            ));
                            assert(eval_stmt(env0, statement@, fb) == Some((stack@, res)));
                        } else {
                            assert(body_result matches Err(e) && e@ == ErrV::LoopLimitReached);
                            assert forall|f: nat|
                                f <= u64::MAX implies (#[trigger] eval_stmt(
                                env0,
                                statement@,
                                f,
                            )) is None by {
                                assert(eval_stmt(env0, clause.statement@, f) is None);
                                assert(eval_stmt(env0, suffix[0].statement, f) is None);
                                assert(eval_clauses(env0, cv, f) == eval_clauses(env0, suffix, f));
                                assert(eval_clauses(env0, suffix, f) == ClausesOut::Matched(None));
                            }
                        }
                    }
                    return body_result;
                }
                i = i + 1;
            }
            proof {
                assert(cv.subrange(cv.len() as int, cv.len() as int) =~= Seq::<ClauseV>::empty());
                assert forall|f: nat| (#[trigger] eval_clauses(env0, cv, f))
                    == ClausesOut::NoMatch by {
                    assert(eval_clauses(env0, cv, f) == eval_clauses(
                        env0,
                        cv.subrange(cv.len() as int, cv.len() as int),
                        f,
                    ));
                }
            }
            match else_clause {
                Some(else_statement) => {
                    let ghost elsev = stmt_view(**else_statement);
                    proof {
                        assert(statement@ == StmtV::If {
                            clauses: cv,
                            else_clause: Some(Box::new(elsev)),
                        });
                    }
                    let body_result = evaluate_statement(stack, &**else_statement);
                    proof {
                        let res = unit_result_view(body_result);
                        if exists|fb: nat|
                            #[trigger] eval_stmt(env0, elsev, fb) == Some((stack@, res)) {
                            let fb = choose|fb: nat|
                                #[trigger] eval_stmt(env0, elsev, fb) == Some((stack@, res));
                            assert(eval_clauses(env0, cv, fb) == ClausesOut::NoMatch);
                            assert(eval_stmt(env0, statement@, fb) == eval_stmt(env0, elsev, fb));
                            assert(eval_stmt(env0, statement@, fb) == Some((stack@, res)));
                        } else {
                            assert(body_result matches Err(e) && e@ == ErrV::LoopLimitReached);
                            assert forall|f: nat|
                                f <= u64::MAX implies (#[trigger] eval_stmt(
                                env0,
                                statement@,
                                f,
                            )) is None by {
                                assert(eval_stmt(env0, elsev, f) is None);
                                assert(eval_clauses(env0, cv, f) == ClausesOut::NoMatch);
                                assert(eval_stmt(env0, statement@, f) == eval_stmt(env0, elsev, f));
                            }
                        }
                    }
                    body_result
                },
                None => {
                    proof {
                        assert(eval_stmt(env0, statement@, 0) == Some(
                            (env0, unit_result_view(Ok::<(), RuntimeError>(()))),
                        ));
                    }
                    Ok(())
                },
            }
        },
        AstStatement::While { condition, statement: body_stmt } => {
            let ghost w = statement@;
            let ghost cond_view = condition@;
            let ghost body_view = stmt_view(**body_stmt);
            proof {
                assert(w == StmtV::While { condition: cond_view, body: Box::new(body_view) });
            }
            let mut budget: u64 = u64::MAX;
            let ghost mut k: nat = 0;
            let ghost mut used: nat = 0;
            loop
                invariant
                    stack.wf(),
                    stack@.len() == env0.len(),
                    k + budget == u64::MAX as nat,
                    used >= k,
                    forall|g: nat| g < k ==> (#[trigger] eval_stmt(env0, w, g)) is None,
                    forall|g: nat|
                        g >= k ==> ((#[trigger] eval_stmt(env0, w, g)) == eval_stmt(
                            stack@,
                            w,
                            (g - k) as nat,
                        ) || (eval_stmt(env0, w, g) is None && g < used)),
                decreases budget,
            {
                let ghost cur = stack@;
                let condition_value = match evaluate_expression(stack, condition) {
                    Ok(v) => v,
                    Err(e) => {
                        proof {
                            let fw = used + k;
                            assert(eval_stmt(cur, w, (fw - k) as nat) == Some(
                                (cur, Err::<(), ErrV>(e@)),
                            ));
                            assert(eval_stmt(env0, w, fw) == Some((cur, Err::<(), ErrV>(e@))));
                        }
                        return Err(e);
                    },
                };
                let condition_true = match &condition_value {
                    RuntimeValue::Boolean(b) => *b,
                    _ => false,
                };
                proof {
                    assert(condition_true == (condition_value@ == Val::Bool(true)));
                }
                if !condition_true {
                    proof {
                        let fw = used + k;
                        assert(eval_stmt(cur, w, (fw - k) as nat) == Some(
                            (cur, Ok::<(), ErrV>(())),
                        ));
                        assert(eval_stmt(env0, w, fw) == Some((cur, Ok::<(), ErrV>(()))));
                    }
                    return Ok(());
                }
                match evaluate_statement(stack, &**body_stmt) {
                    Err(e) => {
                        let ghost new_env = stack@;
                        proof {
                            if exists|fb: nat|
                                #[trigger] eval_stmt(cur, body_view, fb) == Some(
                                    (new_env, Err::<(), ErrV>(e@)),
                                ) {
                                let fb = choose|fb: nat|
                                    #[trigger] eval_stmt(cur, body_view, fb) == Some(
                                        (new_env, Err::<(), ErrV>(e@)),
                                    );
                                let fw = used + k + fb;
                                lemma_eval_stmt_mono(cur, body_view, fb, (fw - k) as nat);
                                assert(eval_stmt(cur, w, (fw - k) as nat) == Some(
                                    (new_env, Err::<(), ErrV>(e@)),
                                ));
                                assert(eval_stmt(env0, w, fw) == Some(
                                    (new_env, Err::<(), ErrV>(e@)),
                                ));
                            } else {
                                assert(e@ == ErrV::LoopLimitReached);
                                assert forall|f: nat|
                                    f <= u64::MAX implies (#[trigger] eval_stmt(
                                    env0,
                                    w,
                                    f,
                                )) is None by {
                                    if f >= k {
                                        if !(eval_stmt(env0, w, f) is None && f < used) {
                                            assert(eval_stmt(cur, body_view, (f - k) as nat)
                                                is None);
                                            assert(eval_stmt(cur, w, (f - k) as nat) is None);
                                        }
                                    }
                                }
                            }
                        }
                        return Err(e);
                    },
                    Ok(()) => {
                        let ghost new_env = stack@;
                        proof {
                            if !exists|fb: nat|
                                #[trigger] eval_stmt(cur, body_view, fb) == Some(
                                    (new_env, Ok::<(), ErrV>(())),
                                ) {
                                assert(false);
                            }
                        }
                        let ghost fb = choose|fb: nat|
                            #[trigger] eval_stmt(cur, body_view, fb) == Some(
                                (new_env, Ok::<(), ErrV>(())),
                            );
                        proof {
                            // One completed pass: at fuel zero the loop-back is refused.
                            assert(eval_stmt(cur, w, 0) is None) by {
                                match eval_stmt(cur, body_view, 0) {
                                    None => {},
                                    Some(out) => {
                                        lemma_eval_stmt_mono(cur, body_view, 0, fb);
                                        assert(out == (new_env, Ok::<(), ErrV>(())));
                                    },
                                }
                            }
                            assert(eval_stmt(env0, w, k) is None);
                        }
                        if budget == 0 {
                            proof {
                                assert(k == u64::MAX as nat);
                                assert forall|f: nat|
                                    f <= u64::MAX implies (#[trigger] eval_stmt(
                                    env0,
                                    w,
                                    f,
                                )) is None by {
                                    assert(f <= k);
                                }
                            }
                            return Err(RuntimeError::LoopLimitReached);
                        }
                        proof {
                            let k2 = k + 1;
                            let used2 = used + fb + 1;
                            assert forall|g: nat|
                                g >= k2 implies ((#[trigger] eval_stmt(env0, w, g)) == eval_stmt(
                                new_env,
                                w,
                                (g - k2) as nat,
                            ) || (eval_stmt(env0, w, g) is None && g < used2)) by {
                                if !(eval_stmt(env0, w, g) is None && g < used) {
                                    assert(eval_stmt(env0, w, g) == eval_stmt(
                                        cur,
                                        w,
                                        (g - k) as nat,
                                    ));
                                    let m = (g - k) as nat;
                                    match eval_stmt(cur, body_view, m) {
                                        None => {
                                            assert(m < fb) by {
                                                if m >= fb {
                                                    lemma_eval_stmt_mono(cur, body_view, fb, m);
                                                }
                                            }
                                            assert(eval_stmt(cur, w, m) is None);
                                            assert(g < used2);
                                        },
                                        Some(out) => {
                                            if m <= fb {
                                                lemma_eval_stmt_mono(cur, body_view, m, fb);
                                            } else {
                                                lemma_eval_stmt_mono(cur, body_view, fb, m);
                                            }
                                            assert(out == (new_env, Ok::<(), ErrV>(())));
                                            assert(eval_stmt(cur, w, m) == eval_stmt(
                                                new_env,
                                                w,
                                                (m - 1) as nat,
                                            ));
                                        },
                                    }
                                }
                            }
                            k = k2;
                            used = used2;
                        }
                        budget = budget - 1;
                    },
                }
            }
        },
    }
}

} // verus!
