//! General laws of the evaluator, stated over the mathematical
//! evaluation function and proved once and for all.

use crate::ast::operator::OperatorType;
use crate::ast::{ClauseV, ExprV, StmtV};
use crate::interpreter::stack::{spec_declare, spec_lookup, spec_reassign, EnvV};
use crate::interpreter::value::{render_value, type_label_of, ErrV, Val};
use crate::interpreter::{eval_clauses, eval_expr, eval_stmt, trunc_div, ClausesOut};
use vstd::arithmetic::div_mod::lemma_fundamental_div_mod;
use vstd::prelude::*;

verus! {

/// Whether two values are built from the same variant.
pub open spec fn same_variant(l: Val, r: Val) -> bool {
    ||| (l is Str && r is Str)
    ||| (l is Int && r is Int)
    ||| (l is Bool && r is Bool)
    ||| (l is Func && r is Func)
    ||| (l is Unit && r is Unit)
}

/// Dividing one integer by a nonzero integer truncates toward zero:
/// the quotient `q` satisfies `a == q * b + r` with the remainder
/// smaller than `b` in magnitude and never opposing the sign of `a`.
/// The one input pair with no representable quotient is the smallest
/// integer divided by minus one.
pub proof fn law_division_truncates(env: EnvV, left: ExprV, right: ExprV, a: i32, b: i32)
    requires
        eval_expr(env, left) == Ok::<Val, ErrV>(Val::Int(a as int)),
        eval_expr(env, right) == Ok::<Val, ErrV>(Val::Int(b as int)),
        b != 0,
        !(a == i32::MIN && b == -1),
    ensures
        ({
            let q = trunc_div(a as int, b as int);
            let r = a - q * b;
            &&& eval_expr(
                env,
                ExprV::BiOperator {
                    operator: OperatorType::Division,
                    left: Box::new(left),
                    right: Box::new(right),
                },
            ) == Ok::<Val, ErrV>(Val::Int(q))
            &&& -abs(b as int) < r < abs(b as int)
            &&& (r == 0 || ((r < 0) <==> (a < 0)))
        }),
{
    lemma_trunc_div_reconstructs(a as int, b as int);
    lemma_trunc_div_fits(a, b);
}

pub open spec fn abs(x: int) -> int {
    if x >= 0 {
        x
    } else {
        -x
    }
}

/// The truncated quotient reconstructs the dividend with a remainder
/// smaller than the divisor in magnitude that never opposes the
/// dividend's sign, and the product `q * d` never exceeds the dividend
/// in magnitude.
proof fn lemma_trunc_div_reconstructs(x: int, d: int)
    requires
        d != 0,
    ensures
        ({
            let q = trunc_div(x, d);
            let r = x - q * d;
            &&& -abs(d) < r < abs(d)
            &&& (r == 0 || ((r < 0) <==> (x < 0)))
            &&& abs(q * d) <= abs(x)
            &&& abs(q) * abs(d) == abs(q * d)
        }),
{
    let q = trunc_div(x, d);
    if x == 0 {
        assert(q * d == 0) by (nonlinear_arith)
            requires
                q == 0,
        ;
    } else if x > 0 && d > 0 {
        lemma_fundamental_div_mod(x, d);
        assert(q >= 0 && q * d == x - x % d) by (nonlinear_arith)
            requires
                q == x / d,
                x == d * (x / d) + x % d,
                0 <= x % d < d,
                x > 0,
                d > 0,
        ;
    } else if x < 0 && d < 0 {
        let xp = x * -1;
        let dp = d * -1;
        lemma_fundamental_div_mod(xp, dp);
        assert(q >= 0 && q * d == x + xp % dp) by (nonlinear_arith)
            requires
                q == xp / dp,
                xp == dp * (xp / dp) + xp % dp,
                0 <= xp % dp < dp,
                xp == x * -1,
                dp == d * -1,
                xp > 0,
                dp > 0,
        ;
    } else if x < 0 {
        let xp = x * -1;
        lemma_fundamental_div_mod(xp, d);
        assert(q <= 0 && q * d == x + xp % d) by (nonlinear_arith)
            requires
                q == (xp / d) * -1,
                xp == d * (xp / d) + xp % d,
                0 <= xp % d < d,
                xp == x * -1,
                xp > 0,
                d > 0,
        ;
    } else {
        let dp = d * -1;
        lemma_fundamental_div_mod(x, dp);
        assert(q <= 0 && q * d == x - x % dp) by (nonlinear_arith)
            requires
                q == (x / dp) * -1,
                x == dp * (x / dp) + x % dp,
                0 <= x % dp < dp,
                dp == d * -1,
                x > 0,
                dp > 0,
        ;
    }
    assert(abs(q) * abs(d) == abs(q * d)) by (nonlinear_arith);
}

/// For 32-bit operands the truncated quotient is representable, except
/// for the smallest integer divided by minus one.
proof fn lemma_trunc_div_fits(a: i32, b: i32)
    requires
        b != 0,
        !(a == i32::MIN && b == -1),
    ensures
        crate::interpreter::fits_i32(trunc_div(a as int, b as int)),
{
    let x = a as int;
    let d = b as int;
    let q = trunc_div(x, d);
    lemma_trunc_div_reconstructs(x, d);
    if d == 1 {
        assert(q == x) by (nonlinear_arith)
            requires
                abs(q * d) <= abs(x),
                abs(q) * abs(d) == abs(q * d),
                d == 1,
                x - q * d > -abs(d),
                x - q * d < abs(d),
        ;
    } else if d == -1 {
        assert(q == -x) by (nonlinear_arith)
            requires
                d == -1,
                x - q * d > -abs(d),
                x - q * d < abs(d),
        ;
    } else {
        assert(abs(q) * 2 <= abs(q) * abs(d)) by (nonlinear_arith)
            requires
                abs(d) >= 2,
                abs(q) >= 0,
        ;
        assert(abs(q) * 2 <= abs(x));
        assert(abs(q) <= abs(x) / 2) by (nonlinear_arith)
            requires
                abs(q) * 2 <= abs(x),
                abs(q) >= 0,
        ;
    }
}

/// Equality across values of different variants is `false`, never an
/// error — comparing an integer with a string simply yields `false`.
pub proof fn law_cross_type_equality(env: EnvV, left: ExprV, right: ExprV, l: Val, r: Val)
    requires
        eval_expr(env, left) == Ok::<Val, ErrV>(l),
        eval_expr(env, right) == Ok::<Val, ErrV>(r),
    ensures
        eval_expr(
            env,
            ExprV::BiOperator {
                operator: OperatorType::Equality,
                left: Box::new(left),
                right: Box::new(right),
            },
        ) == Ok::<Val, ErrV>(Val::Bool(l == r)),
        !same_variant(l, r) ==> eval_expr(
            env,
            ExprV::BiOperator {
                operator: OperatorType::Equality,
                left: Box::new(left),
                right: Box::new(right),
            },
        ) == Ok::<Val, ErrV>(Val::Bool(false)),
{
}

/// When at least one operand of `+` is not an integer, the result is
/// the string concatenating the operands' textual renderings.
pub proof fn law_plus_concatenates(env: EnvV, left: ExprV, right: ExprV, l: Val, r: Val)
    requires
        eval_expr(env, left) == Ok::<Val, ErrV>(l),
        eval_expr(env, right) == Ok::<Val, ErrV>(r),
        !(l is Int && r is Int),
    ensures
        eval_expr(
            env,
            ExprV::BiOperator {
                operator: OperatorType::Plus,
                left: Box::new(left),
                right: Box::new(right),
            },
        ) == Ok::<Val, ErrV>(Val::Str(render_value(l) + render_value(r))),
{
}

/// Negating an integer twice gives it back; the one integer without a
/// representable negation is the smallest one.
pub proof fn law_double_negation(env: EnvV, operand: ExprV, v: i32)
    requires
        eval_expr(env, operand) == Ok::<Val, ErrV>(Val::Int(v as int)),
        v != i32::MIN,
    ensures
        eval_expr(
            env,
            ExprV::UnaryOperator {
                operator: OperatorType::Minus,
                operand: Box::new(
                    ExprV::UnaryOperator {
                        operator: OperatorType::Minus,
                        operand: Box::new(operand),
                    },
                ),
            },
        ) == Ok::<Val, ErrV>(Val::Int(v as int)),
{
    let inner = ExprV::UnaryOperator { operator: OperatorType::Minus, operand: Box::new(operand) };
    assert(eval_expr(env, inner) == Ok::<Val, ErrV>(Val::Int(-(v as int))));
    assert(eval_expr(
        env,
        ExprV::UnaryOperator { operator: OperatorType::Minus, operand: Box::new(inner) },
    ) == Ok::<Val, ErrV>(Val::Int(v as int)));
}

/// Negating a boolean twice gives it back.
pub proof fn law_double_bang(env: EnvV, operand: ExprV, b: bool)
    requires
        eval_expr(env, operand) == Ok::<Val, ErrV>(Val::Bool(b)),
    ensures
        eval_expr(
            env,
            ExprV::UnaryOperator {
                operator: OperatorType::Bang,
                operand: Box::new(
                    ExprV::UnaryOperator {
                        operator: OperatorType::Bang,
                        operand: Box::new(operand),
                    },
                ),
            },
        ) == Ok::<Val, ErrV>(Val::Bool(b)),
{
    let inner = ExprV::UnaryOperator { operator: OperatorType::Bang, operand: Box::new(operand) };
    assert(eval_expr(env, inner) == Ok::<Val, ErrV>(Val::Bool(!b)));
    assert(eval_expr(
        env,
        ExprV::UnaryOperator { operator: OperatorType::Bang, operand: Box::new(inner) },
    ) == Ok::<Val, ErrV>(Val::Bool(b)));
}

/// Redeclaring a name bound in the innermost frame fails, while
/// declaring the same name right after entering a nested frame
/// succeeds and shadows the outer binding.
pub proof fn law_declare_shadowing(env: EnvV, name: Seq<char>, v: Val)
    requires
        env.len() > 0,
        env.last().contains_key(name),
    ensures
        spec_declare(env, name, v) is None,
        spec_declare(env.push(Map::empty()), name, v) == Some(
            env.push(Map::empty().insert(name, v)),
        ),
        spec_lookup(env.push(Map::empty().insert(name, v)), name) == Some(v),
{
    let pushed = env.push(Map::empty());
    assert(pushed.last() =~= Map::<Seq<char>, Val>::empty());
    assert(!pushed.last().contains_key(name));
    assert(pushed.update(pushed.len() - 1, pushed.last().insert(name, v)) =~= env.push(
        Map::empty().insert(name, v),
    ));
}

/// Reassigning a name that no frame binds fails, and the environment
/// is unchanged: the statement reports the name as not defined and the
/// global bindings accumulated so far survive.
pub proof fn law_reassign_unbound(env: EnvV, name: Seq<char>, v: Val)
    requires
        spec_lookup(env, name) is None,
    ensures
        spec_reassign(env, name, v) is None,
    decreases env,
{
    if env.len() > 0 && !env.last().contains_key(name) {
        law_reassign_unbound(env.drop_last(), name, v);
    }
}

/// A reassignment statement of an unbound name fails with the
/// not-defined error and leaves every frame as it was.
pub proof fn law_reassign_unbound_statement(
    env: EnvV,
    name: Seq<char>,
    expression: ExprV,
    v: Val,
    fuel: nat,
)
    requires
        eval_expr(env, expression) == Ok::<Val, ErrV>(v),
        spec_lookup(env, name) is None,
    ensures
        eval_stmt(env, StmtV::Reassignment { name, expression }, fuel) == Some(
            (env, Err::<(), ErrV>(ErrV::NotDefined { name })),
        ),
{
    law_reassign_unbound(env, name, v);
}

/// Calling a function value with the wrong number of arguments fails
/// with the arity mismatch, naming both counts.
pub proof fn law_call_arity(env: EnvV, callee: ExprV, args: Seq<ExprV>, cv: Val)
    requires
        eval_expr(env, callee) == Ok::<Val, ErrV>(cv),
        cv is Func,
        args.len() != cv->Func_arity as int,
    ensures
        eval_expr(env, ExprV::Call { callee: Box::new(callee), arguments: args }) == Err::<
            Val,
            ErrV,
        >(
            ErrV::ArityMismatch { expected: cv->Func_arity, actual: args.len() as usize },
        ),
{
}

/// Calling a value that is not a function fails with the not-callable
/// error, naming the value's type.
pub proof fn law_call_non_function(env: EnvV, callee: ExprV, args: Seq<ExprV>, cv: Val)
    requires
        eval_expr(env, callee) == Ok::<Val, ErrV>(cv),
        !(cv is Func),
    ensures
        eval_expr(env, ExprV::Call { callee: Box::new(callee), arguments: args }) == Err::<
            Val,
            ErrV,
        >(ErrV::NotCallable { type_label: type_label_of(cv) }),
{
}

/// In a three-branch conditional chain with literal conditions, each
/// condition combination selects exactly its branch: the first true
/// condition wins, and the final `else` runs only when both are false.
pub proof fn law_if_chain(env: EnvV, c1: bool, c2: bool, s1: StmtV, s2: StmtV, s3: StmtV, fuel: nat)
    ensures
        ({
            let chain = StmtV::If {
                clauses: seq![
                    ClauseV {
                        condition: ExprV::BooleanLiteral { value: c1 },
                        statement: s1,
                    },
                    ClauseV {
                        condition: ExprV::BooleanLiteral { value: c2 },
                        statement: s2,
                    },
                ],
                else_clause: Some(Box::new(s3)),
            };
            eval_stmt(env, chain, fuel) == (if c1 {
                eval_stmt(env, s1, fuel)
            } else if c2 {
                eval_stmt(env, s2, fuel)
            } else {
                eval_stmt(env, s3, fuel)
            })
        }),
{
    let clauses = seq![
        ClauseV { condition: ExprV::BooleanLiteral { value: c1 }, statement: s1 },
        ClauseV { condition: ExprV::BooleanLiteral { value: c2 }, statement: s2 },
    ];
    assert(clauses.drop_first() =~= seq![
        ClauseV { condition: ExprV::BooleanLiteral { value: c2 }, statement: s2 },
    ]);
    assert(clauses.drop_first().drop_first() =~= Seq::<ClauseV>::empty());
    assert(eval_expr(env, ExprV::BooleanLiteral { value: c1 }) == Ok::<Val, ErrV>(Val::Bool(c1)));
    assert(eval_expr(env, ExprV::BooleanLiteral { value: c2 }) == Ok::<Val, ErrV>(Val::Bool(c2)));
    if c1 {
        assert(eval_clauses(env, clauses, fuel) == ClausesOut::Matched(eval_stmt(env, s1, fuel)));
    } else if c2 {
        assert(eval_clauses(env, clauses.drop_first(), fuel) == ClausesOut::Matched(
            eval_stmt(env, s2, fuel),
        ));
        assert(eval_clauses(env, clauses, fuel) == ClausesOut::Matched(eval_stmt(env, s2, fuel)));
    } else {
        assert(eval_clauses(env, clauses.drop_first().drop_first(), fuel)
            == ClausesOut::NoMatch);
        assert(eval_clauses(env, clauses.drop_first(), fuel) == ClausesOut::NoMatch);
        assert(eval_clauses(env, clauses, fuel) == ClausesOut::NoMatch);
    }
}

} // verus!
