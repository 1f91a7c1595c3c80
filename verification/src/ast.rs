//! The abstract syntax tree: statements and expressions, their
//! mathematical views, and the entry points of the parser.

pub mod operator;
pub mod expression;
pub mod statement;
pub mod util;

use crate::lexer::{tokens_view, Token, TokenV};
use operator::OperatorType;
use std::collections::VecDeque;
use util::ParseErrV;
use util::ParseError;
use vstd::prelude::*;

verus! {

/// Parses the statements of a whole script from index `0`, stopping at
/// the first error; the tokens must be consumed completely.
pub open spec fn script_rest_spec(toks: Seq<TokenV>, acc: Seq<StmtV>) -> Result<
    Seq<StmtV>,
    ParseErrV,
>
    decreases toks.len(), 3000int,
{
    if toks.len() == 0 {
        Ok(acc)
    } else {
        match statement::statement_spec(toks) {
            Err(e) => Err(e),
            Ok((s, rest)) => if rest.len() < toks.len() {
                script_rest_spec(rest, acc.push(s))
            } else {
                Err(ParseErrV::UnexpectedEndOfInput)
            },
        }
    }
}

/// What parsing a whole script yields.
pub open spec fn parse_script_spec(toks: Seq<TokenV>) -> Result<Seq<StmtV>, ParseErrV> {
    script_rest_spec(toks, Seq::empty())
}

/// What parsing a bare expression yields; tokens left over after the
/// expression are ignored.
pub open spec fn parse_expression_only_spec(toks: Seq<TokenV>) -> Result<ExprV, ParseErrV> {
    match expression::expression_spec(toks) {
        Err(e) => Err(e),
        Ok((e, rest)) => Ok(e),
    }
}

/// Parses a statement sequence, consuming the whole token queue.
#[verifier::loop_isolation(false)]
pub fn parse_script(tokens: VecDeque<Token>) -> (r: Result<Vec<AstStatement>, ParseError>)
    ensures
        match r {
            Ok(statements) => parse_script_spec(tokens_view(tokens@)) == Ok::<
                Seq<StmtV>,
                ParseErrV,
            >(stmts_view(statements@)),
            Err(pe) => parse_script_spec(tokens_view(tokens@)) == Err::<Seq<StmtV>, ParseErrV>(
                pe@,
            ),
        },
{
    let mut remaining = tokens;
    let mut statements: Vec<AstStatement> = Vec::new();
    let ghost orig = tokens_view(remaining@);
    proof {
        assert(stmts_view(statements@) =~= Seq::<StmtV>::empty());
    }
    while remaining.len() != 0
        invariant
            parse_script_spec(orig) == script_rest_spec(
                tokens_view(remaining@),
                stmts_view(statements@),
            ),
        decreases remaining@.len(),
    {
        proof {
            crate::lexer::lemma_tokens_view_len(remaining@);
        }
        match statement::statement(&mut remaining) {
            Err(e) => {
                return Err(e);
            },
            Ok(s) => {
                proof {
                    crate::lexer::lemma_tokens_view_len(remaining@);
                }
                let ghost pre = statements@;
                statements.push(s);
                proof {
                    assert(statements@.drop_last() =~= pre);
                    assert(stmts_view(statements@) == stmts_view(pre).push(s@));
                }
            },
        }
    }
    proof {
        crate::lexer::lemma_tokens_view_len(remaining@);
    }
    Ok(statements)
}

/// Parses a single bare expression; tokens left over after the
/// expression are ignored.
pub fn parse_expression_only(tokens: VecDeque<Token>) -> (r: Result<AstExpression, ParseError>)
    ensures
        match r {
            Ok(e) => parse_expression_only_spec(tokens_view(tokens@)) == Ok::<ExprV, ParseErrV>(
                e@,
            ),
            Err(pe) => parse_expression_only_spec(tokens_view(tokens@)) == Err::<
                ExprV,
                ParseErrV,
            >(pe@),
        },
{
    let mut remaining = tokens;
    expression::expression(&mut remaining)
}

#[derive(PartialEq, Debug)]
pub enum AstStatement {
    If { conditional_clauses: Vec<ConditionalClause>, else_clause: Option<Box<AstStatement>> },
    While { condition: AstExpression, statement: Box<AstStatement> },
    Block { statements: Vec<AstStatement> },
    Declaration { name: String, expression: AstExpression },
    Reassignment { name: String, expression: AstExpression },
    Expression { expression: AstExpression },
}

#[derive(PartialEq, Debug)]
pub struct ConditionalClause {
    pub condition: AstExpression,
    pub statement: AstStatement,
}

#[derive(PartialEq, Debug)]
pub enum AstExpression {
    Logical { operator: LogicalOperator, left: Box<AstExpression>, right: Box<AstExpression> },
    BiOperator { operator: OperatorType, left: Box<AstExpression>, right: Box<AstExpression> },
    UnaryOperator { operator: OperatorType, operand: Box<AstExpression> },
    NumberLiteral { value: String },
    StringLiteral { value: String },
    BooleanLiteral { value: bool },
    Symbol { name: String },
    Call { callee: Box<AstExpression>, arguments: Vec<AstExpression> },
}

#[derive(PartialEq, Eq, Structural, Debug, Clone, Copy)]
pub enum LogicalOperator {
    And,
    Or,
}

// ---------------------------------------------------------------------
// Mathematical views of the syntax tree.  Strings become sequences of
// characters; vectors become sequences.
// ---------------------------------------------------------------------
pub enum StmtV {
    If { clauses: Seq<ClauseV>, else_clause: Option<Box<StmtV>> },
    While { condition: ExprV, body: Box<StmtV> },
    Block { statements: Seq<StmtV> },
    Declaration { name: Seq<char>, expression: ExprV },
    Reassignment { name: Seq<char>, expression: ExprV },
    Expression { expression: ExprV },
}

pub struct ClauseV {
    pub condition: ExprV,
    pub statement: StmtV,
}

pub enum ExprV {
    Logical { operator: LogicalOperator, left: Box<ExprV>, right: Box<ExprV> },
    BiOperator { operator: OperatorType, left: Box<ExprV>, right: Box<ExprV> },
    UnaryOperator { operator: OperatorType, operand: Box<ExprV> },
    NumberLiteral { value: Seq<char> },
    StringLiteral { value: Seq<char> },
    BooleanLiteral { value: bool },
    Symbol { name: Seq<char> },
    Call { callee: Box<ExprV>, arguments: Seq<ExprV> },
}

pub open spec fn expr_view(e: AstExpression) -> ExprV
    decreases e,
{
    match e {
        AstExpression::Logical { operator, left, right } => ExprV::Logical {
            operator,
            left: Box::new(expr_view(*left)),
            right: Box::new(expr_view(*right)),
        },
        AstExpression::BiOperator { operator, left, right } => ExprV::BiOperator {
            operator,
            left: Box::new(expr_view(*left)),
            right: Box::new(expr_view(*right)),
        },
        AstExpression::UnaryOperator { operator, operand } => ExprV::UnaryOperator {
            operator,
            operand: Box::new(expr_view(*operand)),
        },
        AstExpression::NumberLiteral { value } => ExprV::NumberLiteral { value: value@ },
        AstExpression::StringLiteral { value } => ExprV::StringLiteral { value: value@ },
        AstExpression::BooleanLiteral { value } => ExprV::BooleanLiteral { value },
        AstExpression::Symbol { name } => ExprV::Symbol { name: name@ },
        AstExpression::Call { callee, arguments } => ExprV::Call {
            callee: Box::new(expr_view(*callee)),
            arguments: exprs_view(arguments@),
        },
    }
}

pub open spec fn exprs_view(es: Seq<AstExpression>) -> Seq<ExprV>
    decreases es,
{
    if es.len() == 0 {
        Seq::empty()
    } else {
        exprs_view(es.drop_last()).push(expr_view(es.last()))
    }
}

pub open spec fn stmt_view(s: AstStatement) -> StmtV
    decreases s,
{
    match s {
        AstStatement::If { conditional_clauses, else_clause } => StmtV::If {
            clauses: clauses_view(conditional_clauses@),
            else_clause: match else_clause {
                Some(b) => Some(Box::new(stmt_view(*b))),
                None => None,
            },
        },
        AstStatement::While { condition, statement } => StmtV::While {
            condition: expr_view(condition),
            body: Box::new(stmt_view(*statement)),
        },
        AstStatement::Block { statements } => StmtV::Block { statements: stmts_view(statements@) },
        AstStatement::Declaration { name, expression } => StmtV::Declaration {
            name: name@,
            expression: expr_view(expression),
        },
        AstStatement::Reassignment { name, expression } => StmtV::Reassignment {
            name: name@,
            expression: expr_view(expression),
        },
        AstStatement::Expression { expression } => StmtV::Expression {
            expression: expr_view(expression),
        },
    }
}

pub open spec fn stmts_view(ss: Seq<AstStatement>) -> Seq<StmtV>
    decreases ss,
{
    if ss.len() == 0 {
        Seq::empty()
    } else {
        stmts_view(ss.drop_last()).push(stmt_view(ss.last()))
    }
}

pub open spec fn clause_view(c: ConditionalClause) -> ClauseV
    decreases c,
{
    ClauseV { condition: expr_view(c.condition), statement: stmt_view(c.statement) }
}

pub open spec fn clauses_view(cs: Seq<ConditionalClause>) -> Seq<ClauseV>
    decreases cs,
{
    if cs.len() == 0 {
        Seq::empty()
    } else {
        clauses_view(cs.drop_last()).push(clause_view(cs.last()))
    }
}

impl View for AstExpression {
    type V = ExprV;

    open spec fn view(&self) -> ExprV {
        expr_view(*self)
    }
}

impl View for AstStatement {
    type V = StmtV;

    open spec fn view(&self) -> StmtV {
        stmt_view(*self)
    }
}

impl View for ConditionalClause {
    type V = ClauseV;

    open spec fn view(&self) -> ClauseV {
        clause_view(*self)
    }
}

pub proof fn lemma_exprs_view_len(es: Seq<AstExpression>)
    ensures
        exprs_view(es).len() == es.len(),
    decreases es,
{
    if es.len() > 0 {
        lemma_exprs_view_len(es.drop_last());
    }
}

pub proof fn lemma_exprs_view_index(es: Seq<AstExpression>, i: int)
    requires
        0 <= i < es.len(),
    ensures
        exprs_view(es).len() == es.len(),
        exprs_view(es)[i] == expr_view(es[i]),
    decreases es,
{
    lemma_exprs_view_len(es);
    if i < es.len() - 1 {
        lemma_exprs_view_index(es.drop_last(), i);
    }
}

pub proof fn lemma_stmts_view_len(ss: Seq<AstStatement>)
    ensures
        stmts_view(ss).len() == ss.len(),
    decreases ss,
{
    if ss.len() > 0 {
        lemma_stmts_view_len(ss.drop_last());
    }
}

pub proof fn lemma_stmts_view_index(ss: Seq<AstStatement>, i: int)
    requires
        0 <= i < ss.len(),
    ensures
        stmts_view(ss).len() == ss.len(),
        stmts_view(ss)[i] == stmt_view(ss[i]),
    decreases ss,
{
    lemma_stmts_view_len(ss);
    if i < ss.len() - 1 {
        lemma_stmts_view_index(ss.drop_last(), i);
    }
}

pub proof fn lemma_clauses_view_len(cs: Seq<ConditionalClause>)
    ensures
        clauses_view(cs).len() == cs.len(),
    decreases cs,
{
    if cs.len() > 0 {
        lemma_clauses_view_len(cs.drop_last());
    }
}

pub proof fn lemma_clauses_view_index(cs: Seq<ConditionalClause>, i: int)
    requires
        0 <= i < cs.len(),
    ensures
        clauses_view(cs).len() == cs.len(),
        clauses_view(cs)[i] == clause_view(cs[i]),
    decreases cs,
{
    lemma_clauses_view_len(cs);
    if i < cs.len() - 1 {
        lemma_clauses_view_index(cs.drop_last(), i);
    }
}

// ---------------------------------------------------------------------
// Structural sizes, used as termination measures by the evaluator and
// by the functions below that walk the tree.
// ---------------------------------------------------------------------
pub open spec fn expr_size(e: AstExpression) -> nat
    decreases e,
{
    1 + match e {
        AstExpression::Logical { operator, left, right } => expr_size(*left) + expr_size(*right),
        AstExpression::BiOperator { operator, left, right } => expr_size(*left) + expr_size(
            *right,
        ),
        AstExpression::UnaryOperator { operator, operand } => expr_size(*operand),
        AstExpression::NumberLiteral { value } => 0,
        AstExpression::StringLiteral { value } => 0,
        AstExpression::BooleanLiteral { value } => 0,
        AstExpression::Symbol { name } => 0,
        AstExpression::Call { callee, arguments } => expr_size(*callee) + exprs_size(arguments@),
    }
}

pub open spec fn exprs_size(es: Seq<AstExpression>) -> nat
    decreases es,
{
    if es.len() == 0 {
        0
    } else {
        exprs_size(es.drop_last()) + expr_size(es.last())
    }
}

pub open spec fn stmt_size(s: AstStatement) -> nat
    decreases s,
{
    1 + match s {
        AstStatement::If { conditional_clauses, else_clause } => clauses_size(conditional_clauses@)
            + match else_clause {
            Some(b) => stmt_size(*b),
            None => 0,
        },
        AstStatement::While { condition, statement } => expr_size(condition) + stmt_size(
            *statement,
        ),
        AstStatement::Block { statements } => stmts_size(statements@),
        AstStatement::Declaration { name, expression } => expr_size(expression),
        AstStatement::Reassignment { name, expression } => expr_size(expression),
        AstStatement::Expression { expression } => expr_size(expression),
    }
}

pub open spec fn stmts_size(ss: Seq<AstStatement>) -> nat
    decreases ss,
{
    if ss.len() == 0 {
        0
    } else {
        stmts_size(ss.drop_last()) + stmt_size(ss.last())
    }
}

pub open spec fn clause_size(c: ConditionalClause) -> nat
    decreases c,
{
    expr_size(c.condition) + stmt_size(c.statement)
}

pub open spec fn clauses_size(cs: Seq<ConditionalClause>) -> nat
    decreases cs,
{
    if cs.len() == 0 {
        0
    } else {
        clauses_size(cs.drop_last()) + clause_size(cs.last())
    }
}

pub proof fn lemma_exprs_size_element(es: Seq<AstExpression>, i: int)
    requires
        0 <= i < es.len(),
    ensures
        expr_size(es[i]) <= exprs_size(es),
    decreases es,
{
    if i < es.len() - 1 {
        lemma_exprs_size_element(es.drop_last(), i);
    }
}

pub proof fn lemma_stmts_size_element(ss: Seq<AstStatement>, i: int)
    requires
        0 <= i < ss.len(),
    ensures
        stmt_size(ss[i]) <= stmts_size(ss),
    decreases ss,
{
    if i < ss.len() - 1 {
        lemma_stmts_size_element(ss.drop_last(), i);
    }
}

pub proof fn lemma_clauses_size_element(cs: Seq<ConditionalClause>, i: int)
    requires
        0 <= i < cs.len(),
    ensures
        clause_size(cs[i]) <= clauses_size(cs),
    decreases cs,
{
    if i < cs.len() - 1 {
        lemma_clauses_size_element(cs.drop_last(), i);
    }
}

// ---------------------------------------------------------------------
// Deep copies.  The derived `Clone` would say nothing to the verifier,
// so copying is spelled out, with the view preserved.
// ---------------------------------------------------------------------
impl AstExpression {
    /// A copy of this expression with the same view.
    #[verifier::loop_isolation(false)]
    pub fn duplicate(&self) -> (r: AstExpression)
        ensures
            r@ == self@,
        decreases expr_size(*self),
    {
        match self {
            AstExpression::Logical { operator, left, right } => AstExpression::Logical {
                operator: *operator,
                left: Box::new((&**left).duplicate()),
                right: Box::new((&**right).duplicate()),
            },
            AstExpression::BiOperator { operator, left, right } => AstExpression::BiOperator {
                operator: *operator,
                left: Box::new((&**left).duplicate()),
                right: Box::new((&**right).duplicate()),
            },
            AstExpression::UnaryOperator { operator, operand } => AstExpression::UnaryOperator {
                operator: *operator,
                operand: Box::new((&**operand).duplicate()),
            },
            AstExpression::NumberLiteral { value } => AstExpression::NumberLiteral {
                value: value.clone(),
            },
            AstExpression::StringLiteral { value } => AstExpression::StringLiteral {
                value: value.clone(),
            },
            AstExpression::BooleanLiteral { value } => AstExpression::BooleanLiteral {
                value: *value,
            },
            AstExpression::Symbol { name } => AstExpression::Symbol { name: name.clone() },
            AstExpression::Call { callee, arguments } => {
                let new_callee = Box::new((&**callee).duplicate());
                let mut args: Vec<AstExpression> = Vec::new();
                let mut i: usize = 0;
                while i < arguments.len()
                    invariant
                        i <= arguments@.len(),
                        exprs_view(args@) == exprs_view(arguments@.subrange(0, i as int)),
                    decreases arguments@.len() - i,
                {
                    proof {
                        lemma_exprs_size_element(arguments@, i as int);
                    }
                    let a = (&arguments[i]).duplicate();
                    let ghost pre = args@;
                    args.push(a);
                    proof {
                        assert(args@.drop_last() =~= pre);
                        assert(arguments@.subrange(0, i + 1 as int).drop_last()
                            =~= arguments@.subrange(0, i as int));
                        assert(arguments@.subrange(0, i + 1 as int).last() == arguments@[i as int]);
                    }
                    i = i + 1;
                }
                proof {
                    assert(arguments@.subrange(0, arguments@.len() as int) =~= arguments@);
                }
                AstExpression::Call { callee: new_callee, arguments: args }
            },
        }
    }
}

impl AstStatement {
    /// A copy of this statement with the same view.
    #[verifier::loop_isolation(false)]
    pub fn duplicate(&self) -> (r: AstStatement)
        ensures
            r@ == self@,
        decreases stmt_size(*self),
    {
        match self {
            AstStatement::If { conditional_clauses, else_clause } => {
                let mut clauses: Vec<ConditionalClause> = Vec::new();
                let mut i: usize = 0;
                while i < conditional_clauses.len()
                    invariant
                        i <= conditional_clauses@.len(),
                        clauses_view(clauses@) == clauses_view(
                            conditional_clauses@.subrange(0, i as int),
                        ),
                    decreases conditional_clauses@.len() - i,
                {
                    proof {
                        lemma_clauses_size_element(conditional_clauses@, i as int);
                    }
                    let c = &conditional_clauses[i];
                    let copy = ConditionalClause {
                        condition: c.condition.duplicate(),
                        statement: c.statement.duplicate(),
                    };
                    let ghost pre = clauses@;
                    proof {
                        assert(clause_view(copy) == clause_view(conditional_clauses@[i as int]));
                    }
                    clauses.push(copy);
                    proof {
                        assert(clauses@.drop_last() =~= pre);
                        assert(conditional_clauses@.subrange(0, i + 1 as int).drop_last()
                            =~= conditional_clauses@.subrange(0, i as int));
                        assert(conditional_clauses@.subrange(0, i + 1 as int).last()
                            == conditional_clauses@[i as int]);
                    }
                    i = i + 1;
                }
                proof {
                    assert(conditional_clauses@.subrange(0, conditional_clauses@.len() as int)
                        =~= conditional_clauses@);
                }
                let else_copy = match else_clause {
                    Some(b) => Some(Box::new((&**b).duplicate())),
                    None => None,
                };
                AstStatement::If { conditional_clauses: clauses, else_clause: else_copy }
            },
            AstStatement::While { condition, statement } => AstStatement::While {
                condition: condition.duplicate(),
                statement: Box::new((&**statement).duplicate()),
            },
            AstStatement::Block { statements } => {
                let mut copies: Vec<AstStatement> = Vec::new();
                let mut i: usize = 0;
                while i < statements.len()
                    invariant
                        i <= statements@.len(),
                        stmts_view(copies@) == stmts_view(statements@.subrange(0, i as int)),
                    decreases statements@.len() - i,
                {
                    proof {
                        lemma_stmts_size_element(statements@, i as int);
                    }
                    let s = (&statements[i]).duplicate();
                    let ghost pre = copies@;
                    copies.push(s);
                    proof {
                        assert(copies@.drop_last() =~= pre);
                        assert(statements@.subrange(0, i + 1 as int).drop_last()
                            =~= statements@.subrange(0, i as int));
                        assert(statements@.subrange(0, i + 1 as int).last()
                            == statements@[i as int]);
                    }
                    i = i + 1;
                }
                proof {
                    assert(statements@.subrange(0, statements@.len() as int) =~= statements@);
                }
                AstStatement::Block { statements: copies }
            },
            AstStatement::Declaration { name, expression } => AstStatement::Declaration {
                name: name.clone(),
                expression: expression.duplicate(),
            },
            AstStatement::Reassignment { name, expression } => AstStatement::Reassignment {
                name: name.clone(),
                expression: expression.duplicate(),
            },
            AstStatement::Expression { expression } => AstStatement::Expression {
                expression: expression.duplicate(),
            },
        }
    }
}

// ---------------------------------------------------------------------
// Structural equality at the level of views.  The derived `PartialEq`
// is opaque to the verifier, so the comparison is spelled out.
// ---------------------------------------------------------------------
/// Whether two expressions have equal views.
#[verifier::loop_isolation(false)]
pub fn eq_expr(a: &AstExpression, b: &AstExpression) -> (r: bool)
    ensures
        r == (a@ == b@),
    decreases expr_size(*a),
{
    match (a, b) {
        (
            AstExpression::Logical { operator: o1, left: l1, right: r1 },
            AstExpression::Logical { operator: o2, left: l2, right: r2 },
        ) => *o1 == *o2 && eq_expr(&**l1, &**l2) && eq_expr(&**r1, &**r2),
        (
            AstExpression::BiOperator { operator: o1, left: l1, right: r1 },
            AstExpression::BiOperator { operator: o2, left: l2, right: r2 },
        ) => *o1 == *o2 && eq_expr(&**l1, &**l2) && eq_expr(&**r1, &**r2),
        (
            AstExpression::UnaryOperator { operator: o1, operand: e1 },
            AstExpression::UnaryOperator { operator: o2, operand: e2 },
        ) => *o1 == *o2 && eq_expr(&**e1, &**e2),
        (
            AstExpression::NumberLiteral { value: v1 },
            AstExpression::NumberLiteral { value: v2 },
        ) => crate::text::str_eq(v1.as_str(), v2.as_str()),
        (
            AstExpression::StringLiteral { value: v1 },
            AstExpression::StringLiteral { value: v2 },
        ) => crate::text::str_eq(v1.as_str(), v2.as_str()),
        (
            AstExpression::BooleanLiteral { value: v1 },
            AstExpression::BooleanLiteral { value: v2 },
        ) => *v1 == *v2,
        (AstExpression::Symbol { name: n1 }, AstExpression::Symbol { name: n2 }) => {
            crate::text::str_eq(n1.as_str(), n2.as_str())
        },
        (
            AstExpression::Call { callee: c1, arguments: a1 },
            AstExpression::Call { callee: c2, arguments: a2 },
        ) => {
            if !eq_expr(&**c1, &**c2) {
                return false;
            }
            if a1.len() != a2.len() {
                proof {
                    lemma_exprs_view_len(a1@);
                    lemma_exprs_view_len(a2@);
                }
                return false;
            }
            let mut i: usize = 0;
            while i < a1.len()
                invariant
                    i <= a1@.len(),
                    forall|j: int| 0 <= j < i ==> exprs_view(a1@)[j] == exprs_view(a2@)[j],
                decreases a1@.len() - i,
            {
                proof {
                    lemma_exprs_size_element(a1@, i as int);
                    lemma_exprs_view_index(a1@, i as int);
                    lemma_exprs_view_index(a2@, i as int);
                }
                if !eq_expr(&a1[i], &a2[i]) {
                    return false;
                }
                i = i + 1;
            }
            proof {
                lemma_exprs_view_len(a1@);
                lemma_exprs_view_len(a2@);
                assert(exprs_view(a1@) =~= exprs_view(a2@));
            }
            true
        },
        _ => {
            proof {
                lemma_distinct_expr_views(a, b);
            }
            false
        },
    }
}

/// Expressions built from different variants have different views.
proof fn lemma_distinct_expr_views(a: &AstExpression, b: &AstExpression)
    ensures
        !expressions_match(a, b) ==> a@ != b@,
{
}

/// Whether two expressions are built from the same variant.
pub open spec fn expressions_match(a: &AstExpression, b: &AstExpression) -> bool {
    ||| (a is Logical && b is Logical)
    ||| (a is BiOperator && b is BiOperator)
    ||| (a is UnaryOperator && b is UnaryOperator)
    ||| (a is NumberLiteral && b is NumberLiteral)
    ||| (a is StringLiteral && b is StringLiteral)
    ||| (a is BooleanLiteral && b is BooleanLiteral)
    ||| (a is Symbol && b is Symbol)
    ||| (a is Call && b is Call)
}

/// Whether two statements have equal views.
#[verifier::loop_isolation(false)]
pub fn eq_stmt(a: &AstStatement, b: &AstStatement) -> (r: bool)
    ensures
        r == (a@ == b@),
    decreases stmt_size(*a),
{
    match (a, b) {
        (
            AstStatement::If { conditional_clauses: c1, else_clause: e1 },
            AstStatement::If { conditional_clauses: c2, else_clause: e2 },
        ) => {
            if c1.len() != c2.len() {
                proof {
                    lemma_clauses_view_len(c1@);
                    lemma_clauses_view_len(c2@);
                }
                return false;
            }
            let mut i: usize = 0;
            while i < c1.len()
                invariant
                    i <= c1@.len(),
                    forall|j: int| 0 <= j < i ==> clauses_view(c1@)[j] == clauses_view(c2@)[j],
                decreases c1@.len() - i,
            {
                proof {
                    lemma_clauses_size_element(c1@, i as int);
                    lemma_clauses_view_index(c1@, i as int);
                    lemma_clauses_view_index(c2@, i as int);
                }
                if !eq_expr(&c1[i].condition, &c2[i].condition) {
                    return false;
                }
                if !eq_stmt(&c1[i].statement, &c2[i].statement) {
                    return false;
                }
                i = i + 1;
            }
            proof {
                lemma_clauses_view_len(c1@);
                lemma_clauses_view_len(c2@);
                assert(clauses_view(c1@) =~= clauses_view(c2@));
            }
            match (e1, e2) {
                (Some(s1), Some(s2)) => eq_stmt(&**s1, &**s2),
                (None, None) => true,
                _ => false,
            }
        },
        (
            AstStatement::While { condition: c1, statement: s1 },
            AstStatement::While { condition: c2, statement: s2 },
        ) => eq_expr(c1, c2) && eq_stmt(&**s1, &**s2),
        (AstStatement::Block { statements: s1 }, AstStatement::Block { statements: s2 }) => {
            if s1.len() != s2.len() {
                proof {
                    lemma_stmts_view_len(s1@);
                    lemma_stmts_view_len(s2@);
                }
                return false;
            }
            let mut i: usize = 0;
            while i < s1.len()
                invariant
                    i <= s1@.len(),
                    forall|j: int| 0 <= j < i ==> stmts_view(s1@)[j] == stmts_view(s2@)[j],
                decreases s1@.len() - i,
            {
                proof {
                    lemma_stmts_size_element(s1@, i as int);
                    lemma_stmts_view_index(s1@, i as int);
                    lemma_stmts_view_index(s2@, i as int);
                }
                if !eq_stmt(&s1[i], &s2[i]) {
                    return false;
                }
                i = i + 1;
            }
            proof {
                lemma_stmts_view_len(s1@);
                lemma_stmts_view_len(s2@);
                assert(stmts_view(s1@) =~= stmts_view(s2@));
            }
            true
        },
        (
            AstStatement::Declaration { name: n1, expression: x1 },
            AstStatement::Declaration { name: n2, expression: x2 },
        ) => crate::text::str_eq(n1.as_str(), n2.as_str()) && eq_expr(x1, x2),
        (
            AstStatement::Reassignment { name: n1, expression: x1 },
            AstStatement::Reassignment { name: n2, expression: x2 },
        ) => crate::text::str_eq(n1.as_str(), n2.as_str()) && eq_expr(x1, x2),
        (
            AstStatement::Expression { expression: x1 },
            AstStatement::Expression { expression: x2 },
        ) => eq_expr(x1, x2),
        _ => {
            proof {
                lemma_distinct_stmt_views(a, b);
            }
            false
        },
    }
}

/// Whether two statements are built from the same variant.
pub open spec fn statements_match(a: &AstStatement, b: &AstStatement) -> bool {
    ||| (a is If && b is If)
    ||| (a is While && b is While)
    ||| (a is Block && b is Block)
    ||| (a is Declaration && b is Declaration)
    ||| (a is Reassignment && b is Reassignment)
    ||| (a is Expression && b is Expression)
}

/// Statements built from different variants have different views.
proof fn lemma_distinct_stmt_views(a: &AstStatement, b: &AstStatement)
    ensures
        !statements_match(a, b) ==> a@ != b@,
{
}

} // verus!
