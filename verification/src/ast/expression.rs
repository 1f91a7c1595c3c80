//! The expression parser: precedence climbing from logical `or` down to
//! primaries, each binary level left-associative.  Every function is
//! proved to produce exactly what the corresponding mathematical parser
//! yields, together with the remaining tokens.

use crate::ast::operator::{operator_spec, OperatorType};
use crate::ast::util::{
    consume_control, consume_control_spec, lemma_tokens_view_drop_first, match_control,
    match_operator, match_operator_spec, matches_front, ParseErrV, ParseError,
};
use crate::ast::{
    expr_view, exprs_view, lemma_exprs_view_len, AstExpression, ExprV, LogicalOperator,
};
use crate::lexer::{tokens_view, Token, TokenType, TokenV};
use crate::text::str_eq;
use std::collections::VecDeque;
use vstd::prelude::*;
use vstd::string::{StrSliceExecFns, StringExecFns};

verus! {

/// What a parsing step yields: the parsed expression and the remaining
/// tokens, or the first error.
pub type ExprParse = Result<(ExprV, Seq<TokenV>), ParseErrV>;

/// The text of a string literal with its delimiting quotes removed.
pub open spec fn strip_quotes(s: Seq<char>) -> Seq<char> {
    if s.len() <= 1 {
        Seq::empty()
    } else {
        s.subrange(1, s.len() - 1)
    }
}

pub open spec fn expression_spec(toks: Seq<TokenV>) -> ExprParse
    decreases toks.len(), 100int,
{
    logic_or_spec(toks)
}

pub open spec fn logic_or_spec(toks: Seq<TokenV>) -> ExprParse
    decreases toks.len(), 95int,
{
    match logic_and_spec(toks) {
        Err(e) => Err(e),
        Ok((e1, rest)) => if rest.len() <= toks.len() {
            or_rest_spec(rest, e1)
        } else {
            Err(ParseErrV::UnexpectedEndOfInput)
        },
    }
}

pub open spec fn or_rest_spec(toks: Seq<TokenV>, acc: ExprV) -> ExprParse
    decreases toks.len(), 92int,
{
    if matches_front(toks, TokenType::Control, "||"@) {
        match logic_and_spec(toks.drop_first()) {
            Err(e) => Err(e),
            Ok((right, rest)) => if rest.len() < toks.len() {
                or_rest_spec(
                    rest,
                    ExprV::Logical {
                        operator: LogicalOperator::Or,
                        left: Box::new(acc),
                        right: Box::new(right),
                    },
                )
            } else {
                Err(ParseErrV::UnexpectedEndOfInput)
            },
        }
    } else {
        Ok((acc, toks))
    }
}

pub open spec fn logic_and_spec(toks: Seq<TokenV>) -> ExprParse
    decreases toks.len(), 90int,
{
    match equality_spec(toks) {
        Err(e) => Err(e),
        Ok((e1, rest)) => if rest.len() <= toks.len() {
            and_rest_spec(rest, e1)
        } else {
            Err(ParseErrV::UnexpectedEndOfInput)
        },
    }
}

pub open spec fn and_rest_spec(toks: Seq<TokenV>, acc: ExprV) -> ExprParse
    decreases toks.len(), 87int,
{
    if matches_front(toks, TokenType::Control, "&&"@) {
        match equality_spec(toks.drop_first()) {
            Err(e) => Err(e),
            Ok((right, rest)) => if rest.len() < toks.len() {
                and_rest_spec(
                    rest,
                    ExprV::Logical {
                        operator: LogicalOperator::And,
                        left: Box::new(acc),
                        right: Box::new(right),
                    },
                )
            } else {
                Err(ParseErrV::UnexpectedEndOfInput)
            },
        }
    } else {
        Ok((acc, toks))
    }
}

pub open spec fn equality_operators() -> Seq<OperatorType> {
    seq![OperatorType::Equality, OperatorType::Inequality]
}

pub open spec fn comparison_operators() -> Seq<OperatorType> {
    seq![
        OperatorType::LessThan,
        OperatorType::GreaterThan,
        OperatorType::LessThanOrEqual,
        OperatorType::GreaterThanOrEqual,
    ]
}

pub open spec fn term_operators() -> Seq<OperatorType> {
    seq![OperatorType::Plus, OperatorType::Minus]
}

pub open spec fn factor_operators() -> Seq<OperatorType> {
    seq![OperatorType::Multiplication, OperatorType::Division, OperatorType::Modulus]
}

pub open spec fn equality_spec(toks: Seq<TokenV>) -> ExprParse
    decreases toks.len(), 85int,
{
    match comparison_spec(toks) {
        Err(e) => Err(e),
        Ok((e1, rest)) => if rest.len() <= toks.len() {
            equality_rest_spec(rest, e1)
        } else {
            Err(ParseErrV::UnexpectedEndOfInput)
        },
    }
}

pub open spec fn equality_rest_spec(toks: Seq<TokenV>, acc: ExprV) -> ExprParse
    decreases toks.len(), 82int,
{
    match match_operator_spec(toks, equality_operators()) {
        Some(op) => match comparison_spec(toks.drop_first()) {
            Err(e) => Err(e),
            Ok((right, rest)) => if rest.len() < toks.len() {
                equality_rest_spec(
                    rest,
                    ExprV::BiOperator { operator: op, left: Box::new(acc), right: Box::new(right) },
                )
            } else {
                Err(ParseErrV::UnexpectedEndOfInput)
            },
        },
        None => Ok((acc, toks)),
    }
}

pub open spec fn comparison_spec(toks: Seq<TokenV>) -> ExprParse
    decreases toks.len(), 80int,
{
    match term_spec(toks) {
        Err(e) => Err(e),
        Ok((e1, rest)) => if rest.len() <= toks.len() {
            comparison_rest_spec(rest, e1)
        } else {
            Err(ParseErrV::UnexpectedEndOfInput)
        },
    }
}

pub open spec fn comparison_rest_spec(toks: Seq<TokenV>, acc: ExprV) -> ExprParse
    decreases toks.len(), 77int,
{
    match match_operator_spec(toks, comparison_operators()) {
        Some(op) => match term_spec(toks.drop_first()) {
            Err(e) => Err(e),
            Ok((right, rest)) => if rest.len() < toks.len() {
                comparison_rest_spec(
                    rest,
                    ExprV::BiOperator { operator: op, left: Box::new(acc), right: Box::new(right) },
                )
            } else {
                Err(ParseErrV::UnexpectedEndOfInput)
            },
        },
        None => Ok((acc, toks)),
    }
}

pub open spec fn term_spec(toks: Seq<TokenV>) -> ExprParse
    decreases toks.len(), 75int,
{
    match factor_spec(toks) {
        Err(e) => Err(e),
        Ok((e1, rest)) => if rest.len() <= toks.len() {
            term_rest_spec(rest, e1)
        } else {
            Err(ParseErrV::UnexpectedEndOfInput)
        },
    }
}

pub open spec fn term_rest_spec(toks: Seq<TokenV>, acc: ExprV) -> ExprParse
    decreases toks.len(), 72int,
{
    match match_operator_spec(toks, term_operators()) {
        Some(op) => match factor_spec(toks.drop_first()) {
            Err(e) => Err(e),
            Ok((right, rest)) => if rest.len() < toks.len() {
                term_rest_spec(
                    rest,
                    ExprV::BiOperator { operator: op, left: Box::new(acc), right: Box::new(right) },
                )
            } else {
                Err(ParseErrV::UnexpectedEndOfInput)
            },
        },
        None => Ok((acc, toks)),
    }
}

pub open spec fn factor_spec(toks: Seq<TokenV>) -> ExprParse
    decreases toks.len(), 70int,
{
    match unary_spec(toks) {
        Err(e) => Err(e),
        Ok((e1, rest)) => if rest.len() <= toks.len() {
            factor_rest_spec(rest, e1)
        } else {
            Err(ParseErrV::UnexpectedEndOfInput)
        },
    }
}

pub open spec fn factor_rest_spec(toks: Seq<TokenV>, acc: ExprV) -> ExprParse
    decreases toks.len(), 67int,
{
    match match_operator_spec(toks, factor_operators()) {
        Some(op) => match unary_spec(toks.drop_first()) {
            Err(e) => Err(e),
            Ok((right, rest)) => if rest.len() < toks.len() {
                factor_rest_spec(
                    rest,
                    ExprV::BiOperator { operator: op, left: Box::new(acc), right: Box::new(right) },
                )
            } else {
                Err(ParseErrV::UnexpectedEndOfInput)
            },
        },
        None => Ok((acc, toks)),
    }
}

pub open spec fn unary_spec(toks: Seq<TokenV>) -> ExprParse
    decreases toks.len(), 65int,
{
    match match_operator_spec(toks, seq![OperatorType::Minus, OperatorType::Bang]) {
        Some(op) => match unary_spec(toks.drop_first()) {
            Err(e) => Err(e),
            Ok((operand, rest)) => Ok(
                (ExprV::UnaryOperator { operator: op, operand: Box::new(operand) }, rest),
            ),
        },
        None => call_spec(toks),
    }
}

pub open spec fn call_spec(toks: Seq<TokenV>) -> ExprParse
    decreases toks.len(), 60int,
{
    match primary_spec(toks) {
        Err(e) => Err(e),
        Ok((p, rest)) => if rest.len() <= toks.len() {
            if matches_front(rest, TokenType::Control, "("@) {
                call_arguments_spec(rest.drop_first(), p, Seq::empty())
            } else {
                Ok((p, rest))
            }
        } else {
            Err(ParseErrV::UnexpectedEndOfInput)
        },
    }
}

/// Call arguments are parsed back to back until the closing
/// parenthesis; there is no separator in the grammar.
pub open spec fn call_arguments_spec(toks: Seq<TokenV>, callee: ExprV, args: Seq<ExprV>) -> ExprParse
    decreases toks.len(), 1000int,
{
    if matches_front(toks, TokenType::Control, ")"@) {
        Ok((ExprV::Call { callee: Box::new(callee), arguments: args }, toks.drop_first()))
    } else {
        match expression_spec(toks) {
            Err(e) => Err(e),
            Ok((a, rest)) => if rest.len() < toks.len() {
                call_arguments_spec(rest, callee, args.push(a))
            } else {
                Err(ParseErrV::UnexpectedEndOfInput)
            },
        }
    }
}

pub open spec fn primary_spec(toks: Seq<TokenV>) -> ExprParse
    decreases toks.len(), 50int,
{
    if toks.len() == 0 {
        Err(ParseErrV::UnexpectedEndOfInput)
    } else {
        let t = toks[0];
        if t.token_type == TokenType::Number {
            Ok((ExprV::NumberLiteral { value: t.contents }, toks.drop_first()))
        } else if t.token_type == TokenType::StringLiteral {
            Ok((ExprV::StringLiteral { value: strip_quotes(t.contents) }, toks.drop_first()))
        } else if t.token_type == TokenType::Symbol {
            if t.contents == "true"@ {
                Ok((ExprV::BooleanLiteral { value: true }, toks.drop_first()))
            } else if t.contents == "false"@ {
                Ok((ExprV::BooleanLiteral { value: false }, toks.drop_first()))
            } else {
                Ok((ExprV::Symbol { name: t.contents }, toks.drop_first()))
            }
        } else if t.token_type == TokenType::Control && t.contents == "("@ {
            match expression_spec(toks.drop_first()) {
                Err(e) => Err(e),
                Ok((e, rest)) => if matches_front(rest, TokenType::Control, ")"@) {
                    Ok((e, rest.drop_first()))
                } else {
                    Err(ParseErrV::MissingParenthesisClose)
                },
            }
        } else {
            Err(ParseErrV::UnexpectedToken { text: t.contents })
        }
    }
}

// ---------------------------------------------------------------------
// The executable parser.
// ---------------------------------------------------------------------
pub fn expression(tokens: &mut VecDeque<Token>) -> (r: Result<AstExpression, ParseError>)
    ensures
        match r {
            Ok(e) => expression_spec(tokens_view(old(tokens)@)) == Ok::<
                (ExprV, Seq<TokenV>),
                ParseErrV,
            >((e@, tokens_view(final(tokens)@))) && final(tokens)@.len() < old(tokens)@.len(),
            Err(pe) => expression_spec(tokens_view(old(tokens)@)) == Err::<
                (ExprV, Seq<TokenV>),
                ParseErrV,
            >(pe@),
        },
    decreases old(tokens)@.len(), 100int,
{
    logic_or(tokens)
}

fn logic_or(tokens: &mut VecDeque<Token>) -> (r: Result<AstExpression, ParseError>)
    ensures
        match r {
            Ok(e) => logic_or_spec(tokens_view(old(tokens)@)) == Ok::<
                (ExprV, Seq<TokenV>),
                ParseErrV,
            >((e@, tokens_view(final(tokens)@))) && final(tokens)@.len() < old(tokens)@.len(),
            Err(pe) => logic_or_spec(tokens_view(old(tokens)@)) == Err::<
                (ExprV, Seq<TokenV>),
                ParseErrV,
            >(pe@),
        },
    decreases old(tokens)@.len(), 95int,
{
    proof {
        crate::lexer::lemma_tokens_view_len(tokens@);
    }
    match logic_and(tokens) {
        Err(e) => Err(e),
        Ok(e1) => {
            proof {
                crate::lexer::lemma_tokens_view_len(tokens@);
            }
            or_rest(tokens, e1)
        },
    }
}

fn or_rest(tokens: &mut VecDeque<Token>, acc: AstExpression) -> (r: Result<
    AstExpression,
    ParseError,
>)
    ensures
        match r {
            Ok(e) => or_rest_spec(tokens_view(old(tokens)@), acc@) == Ok::<
                (ExprV, Seq<TokenV>),
                ParseErrV,
            >((e@, tokens_view(final(tokens)@))) && final(tokens)@.len() <= old(tokens)@.len(),
            Err(pe) => or_rest_spec(tokens_view(old(tokens)@), acc@) == Err::<
                (ExprV, Seq<TokenV>),
                ParseErrV,
            >(pe@),
        },
    decreases old(tokens)@.len(), 92int,
{
    proof {
        crate::lexer::lemma_tokens_view_len(tokens@);
        if tokens@.len() > 0 {
            lemma_tokens_view_drop_first(tokens@);
        }
    }
    if match_control(tokens, "||") {
        proof {
            crate::lexer::lemma_tokens_view_len(tokens@);
        }
        match logic_and(tokens) {
            Err(e) => Err(e),
            Ok(right) => {
                proof {
                    crate::lexer::lemma_tokens_view_len(tokens@);
                }
                or_rest(
                    tokens,
                    AstExpression::Logical {
                        operator: LogicalOperator::Or,
                        left: Box::new(acc),
                        right: Box::new(right),
                    },
                )
            },
        }
    } else {
        Ok(acc)
    }
}

fn logic_and(tokens: &mut VecDeque<Token>) -> (r: Result<AstExpression, ParseError>)
    ensures
        match r {
            Ok(e) => logic_and_spec(tokens_view(old(tokens)@)) == Ok::<
                (ExprV, Seq<TokenV>),
                ParseErrV,
            >((e@, tokens_view(final(tokens)@))) && final(tokens)@.len() < old(tokens)@.len(),
            Err(pe) => logic_and_spec(tokens_view(old(tokens)@)) == Err::<
                (ExprV, Seq<TokenV>),
                ParseErrV,
            >(pe@),
        },
    decreases old(tokens)@.len(), 90int,
{
    proof {
        crate::lexer::lemma_tokens_view_len(tokens@);
    }
    match equality(tokens) {
        Err(e) => Err(e),
        Ok(e1) => {
            proof {
                crate::lexer::lemma_tokens_view_len(tokens@);
            }
            and_rest(tokens, e1)
        },
    }
}

fn and_rest(tokens: &mut VecDeque<Token>, acc: AstExpression) -> (r: Result<
    AstExpression,
    ParseError,
>)
    ensures
        match r {
            Ok(e) => and_rest_spec(tokens_view(old(tokens)@), acc@) == Ok::<
                (ExprV, Seq<TokenV>),
                ParseErrV,
            >((e@, tokens_view(final(tokens)@))) && final(tokens)@.len() <= old(tokens)@.len(),
            Err(pe) => and_rest_spec(tokens_view(old(tokens)@), acc@) == Err::<
                (ExprV, Seq<TokenV>),
                ParseErrV,
            >(pe@),
        },
    decreases old(tokens)@.len(), 87int,
{
    proof {
        crate::lexer::lemma_tokens_view_len(tokens@);
        if tokens@.len() > 0 {
            lemma_tokens_view_drop_first(tokens@);
        }
    }
    if match_control(tokens, "&&") {
        proof {
            crate::lexer::lemma_tokens_view_len(tokens@);
        }
        match equality(tokens) {
            Err(e) => Err(e),
            Ok(right) => {
                proof {
                    crate::lexer::lemma_tokens_view_len(tokens@);
                }
                and_rest(
                    tokens,
                    AstExpression::Logical {
                        operator: LogicalOperator::And,
                        left: Box::new(acc),
                        right: Box::new(right),
                    },
                )
            },
        }
    } else {
        Ok(acc)
    }
}

fn equality(tokens: &mut VecDeque<Token>) -> (r: Result<AstExpression, ParseError>)
    ensures
        match r {
            Ok(e) => equality_spec(tokens_view(old(tokens)@)) == Ok::<
                (ExprV, Seq<TokenV>),
                ParseErrV,
            >((e@, tokens_view(final(tokens)@))) && final(tokens)@.len() < old(tokens)@.len(),
            Err(pe) => equality_spec(tokens_view(old(tokens)@)) == Err::<
                (ExprV, Seq<TokenV>),
                ParseErrV,
            >(pe@),
        },
    decreases old(tokens)@.len(), 85int,
{
    proof {
        crate::lexer::lemma_tokens_view_len(tokens@);
    }
    match comparison(tokens) {
        Err(e) => Err(e),
        Ok(e1) => {
            proof {
                crate::lexer::lemma_tokens_view_len(tokens@);
            }
            equality_rest(tokens, e1)
        },
    }
}

fn equality_rest(tokens: &mut VecDeque<Token>, acc: AstExpression) -> (r: Result<
    AstExpression,
    ParseError,
>)
    ensures
        match r {
            Ok(e) => equality_rest_spec(tokens_view(old(tokens)@), acc@) == Ok::<
                (ExprV, Seq<TokenV>),
                ParseErrV,
            >((e@, tokens_view(final(tokens)@))) && final(tokens)@.len() <= old(tokens)@.len(),
            Err(pe) => equality_rest_spec(tokens_view(old(tokens)@), acc@) == Err::<
                (ExprV, Seq<TokenV>),
                ParseErrV,
            >(pe@),
        },
    decreases old(tokens)@.len(), 82int,
{
    proof {
        crate::lexer::lemma_tokens_view_len(tokens@);
        if tokens@.len() > 0 {
            lemma_tokens_view_drop_first(tokens@);
        }
    }
    let ops = [OperatorType::Equality, OperatorType::Inequality];
    proof {
        assert(ops@ =~= equality_operators());
    }
    match match_operator(tokens, &ops) {
        Some(op) => {
            proof {
                crate::lexer::lemma_tokens_view_len(tokens@);
            }
            match comparison(tokens) {
                Err(e) => Err(e),
                Ok(right) => {
                    proof {
                        crate::lexer::lemma_tokens_view_len(tokens@);
                    }
                    equality_rest(
                        tokens,
                        AstExpression::BiOperator {
                            operator: op,
                            left: Box::new(acc),
                            right: Box::new(right),
                        },
                    )
                },
            }
        },
        None => Ok(acc),
    }
}

fn comparison(tokens: &mut VecDeque<Token>) -> (r: Result<AstExpression, ParseError>)
    ensures
        match r {
            Ok(e) => comparison_spec(tokens_view(old(tokens)@)) == Ok::<
                (ExprV, Seq<TokenV>),
                ParseErrV,
            >((e@, tokens_view(final(tokens)@))) && final(tokens)@.len() < old(tokens)@.len(),
            Err(pe) => comparison_spec(tokens_view(old(tokens)@)) == Err::<
                (ExprV, Seq<TokenV>),
                ParseErrV,
            >(pe@),
        },
    decreases old(tokens)@.len(), 80int,
{
    proof {
        crate::lexer::lemma_tokens_view_len(tokens@);
    }
    match term(tokens) {
        Err(e) => Err(e),
        Ok(e1) => {
            proof {
                crate::lexer::lemma_tokens_view_len(tokens@);
            }
            comparison_rest(tokens, e1)
        },
    }
}

fn comparison_rest(tokens: &mut VecDeque<Token>, acc: AstExpression) -> (r: Result<
    AstExpression,
    ParseError,
>)
    ensures
        match r {
            Ok(e) => comparison_rest_spec(tokens_view(old(tokens)@), acc@) == Ok::<
                (ExprV, Seq<TokenV>),
                ParseErrV,
            >((e@, tokens_view(final(tokens)@))) && final(tokens)@.len() <= old(tokens)@.len(),
            Err(pe) => comparison_rest_spec(tokens_view(old(tokens)@), acc@) == Err::<
                (ExprV, Seq<TokenV>),
                ParseErrV,
            >(pe@),
        },
    decreases old(tokens)@.len(), 77int,
{
    proof {
        crate::lexer::lemma_tokens_view_len(tokens@);
        if tokens@.len() > 0 {
            lemma_tokens_view_drop_first(tokens@);
        }
    }
    let ops = [
        OperatorType::LessThan,
        OperatorType::GreaterThan,
        OperatorType::LessThanOrEqual,
        OperatorType::GreaterThanOrEqual,
    ];
    proof {
        assert(ops@ =~= comparison_operators());
    }
    match match_operator(tokens, &ops) {
        Some(op) => {
            proof {
                crate::lexer::lemma_tokens_view_len(tokens@);
            }
            match term(tokens) {
                Err(e) => Err(e),
                Ok(right) => {
                    proof {
                        crate::lexer::lemma_tokens_view_len(tokens@);
                    }
                    comparison_rest(
                        tokens,
                        AstExpression::BiOperator {
                            operator: op,
                            left: Box::new(acc),
                            right: Box::new(right),
                        },
                    )
                },
            }
        },
        None => Ok(acc),
    }
}

fn term(tokens: &mut VecDeque<Token>) -> (r: Result<AstExpression, ParseError>)
    ensures
        match r {
            Ok(e) => term_spec(tokens_view(old(tokens)@)) == Ok::<
                (ExprV, Seq<TokenV>),
                ParseErrV,
            >((e@, tokens_view(final(tokens)@))) && final(tokens)@.len() < old(tokens)@.len(),
            Err(pe) => term_spec(tokens_view(old(tokens)@)) == Err::<
                (ExprV, Seq<TokenV>),
                ParseErrV,
            >(pe@),
        },
    decreases old(tokens)@.len(), 75int,
{
    proof {
        crate::lexer::lemma_tokens_view_len(tokens@);
    }
    match factor(tokens) {
        Err(e) => Err(e),
        Ok(e1) => {
            proof {
                crate::lexer::lemma_tokens_view_len(tokens@);
            }
            term_rest(tokens, e1)
        },
    }
}

fn term_rest(tokens: &mut VecDeque<Token>, acc: AstExpression) -> (r: Result<
    AstExpression,
    ParseError,
>)
    ensures
        match r {
            Ok(e) => term_rest_spec(tokens_view(old(tokens)@), acc@) == Ok::<
                (ExprV, Seq<TokenV>),
                ParseErrV,
            >((e@, tokens_view(final(tokens)@))) && final(tokens)@.len() <= old(tokens)@.len(),
            Err(pe) => term_rest_spec(tokens_view(old(tokens)@), acc@) == Err::<
                (ExprV, Seq<TokenV>),
                ParseErrV,
            >(pe@),
        },
    decreases old(tokens)@.len(), 72int,
{
    proof {
        crate::lexer::lemma_tokens_view_len(tokens@);
        if tokens@.len() > 0 {
            lemma_tokens_view_drop_first(tokens@);
        }
    }
    let ops = [OperatorType::Plus, OperatorType::Minus];
    proof {
        assert(ops@ =~= term_operators());
    }
    match match_operator(tokens, &ops) {
        Some(op) => {
            proof {
                crate::lexer::lemma_tokens_view_len(tokens@);
            }
            match factor(tokens) {
                Err(e) => Err(e),
                Ok(right) => {
                    proof {
                        crate::lexer::lemma_tokens_view_len(tokens@);
                    }
                    term_rest(
                        tokens,
                        AstExpression::BiOperator {
                            operator: op,
                            left: Box::new(acc),
                            right: Box::new(right),
                        },
                    )
                },
            }
        },
        None => Ok(acc),
    }
}

fn factor(tokens: &mut VecDeque<Token>) -> (r: Result<AstExpression, ParseError>)
    ensures
        match r {
            Ok(e) => factor_spec(tokens_view(old(tokens)@)) == Ok::<
                (ExprV, Seq<TokenV>),
                ParseErrV,
            >((e@, tokens_view(final(tokens)@))) && final(tokens)@.len() < old(tokens)@.len(),
            Err(pe) => factor_spec(tokens_view(old(tokens)@)) == Err::<
                (ExprV, Seq<TokenV>),
                ParseErrV,
            >(pe@),
        },
    decreases old(tokens)@.len(), 70int,
{
    proof {
        crate::lexer::lemma_tokens_view_len(tokens@);
    }
    match unary(tokens) {
        Err(e) => Err(e),
        Ok(e1) => {
            proof {
                crate::lexer::lemma_tokens_view_len(tokens@);
            }
            factor_rest(tokens, e1)
        },
    }
}

fn factor_rest(tokens: &mut VecDeque<Token>, acc: AstExpression) -> (r: Result<
    AstExpression,
    ParseError,
>)
    ensures
        match r {
            Ok(e) => factor_rest_spec(tokens_view(old(tokens)@), acc@) == Ok::<
                (ExprV, Seq<TokenV>),
                ParseErrV,
            >((e@, tokens_view(final(tokens)@))) && final(tokens)@.len() <= old(tokens)@.len(),
            Err(pe) => factor_rest_spec(tokens_view(old(tokens)@), acc@) == Err::<
                (ExprV, Seq<TokenV>),
                ParseErrV,
            >(pe@),
        },
    decreases old(tokens)@.len(), 67int,
{
    proof {
        crate::lexer::lemma_tokens_view_len(tokens@);
        if tokens@.len() > 0 {
            lemma_tokens_view_drop_first(tokens@);
        }
    }
    let ops = [OperatorType::Multiplication, OperatorType::Division, OperatorType::Modulus];
    proof {
        assert(ops@ =~= factor_operators());
    }
    match match_operator(tokens, &ops) {
        Some(op) => {
            proof {
                crate::lexer::lemma_tokens_view_len(tokens@);
            }
            match unary(tokens) {
                Err(e) => Err(e),
                Ok(right) => {
                    proof {
                        crate::lexer::lemma_tokens_view_len(tokens@);
                    }
                    factor_rest(
                        tokens,
                        AstExpression::BiOperator {
                            operator: op,
                            left: Box::new(acc),
                            right: Box::new(right),
                        },
                    )
                },
            }
        },
        None => Ok(acc),
    }
}

fn unary(tokens: &mut VecDeque<Token>) -> (r: Result<AstExpression, ParseError>)
    ensures
        match r {
            Ok(e) => unary_spec(tokens_view(old(tokens)@)) == Ok::<
                (ExprV, Seq<TokenV>),
                ParseErrV,
            >((e@, tokens_view(final(tokens)@))) && final(tokens)@.len() < old(tokens)@.len(),
            Err(pe) => unary_spec(tokens_view(old(tokens)@)) == Err::<
                (ExprV, Seq<TokenV>),
                ParseErrV,
            >(pe@),
        },
    decreases old(tokens)@.len(), 65int,
{
    proof {
        crate::lexer::lemma_tokens_view_len(tokens@);
        if tokens@.len() > 0 {
            lemma_tokens_view_drop_first(tokens@);
        }
    }
    let ops = [OperatorType::Minus, OperatorType::Bang];
    proof {
        assert(ops@ =~= seq![OperatorType::Minus, OperatorType::Bang]);
    }
    match match_operator(tokens, &ops) {
        Some(op) => {
            proof {
                crate::lexer::lemma_tokens_view_len(tokens@);
            }
            match unary(tokens) {
                Err(e) => Err(e),
                Ok(operand) => Ok(
                    AstExpression::UnaryOperator { operator: op, operand: Box::new(operand) },
                ),
            }
        },
        None => call(tokens),
    }
}

fn call(tokens: &mut VecDeque<Token>) -> (r: Result<AstExpression, ParseError>)
    ensures
        match r {
            Ok(e) => call_spec(tokens_view(old(tokens)@)) == Ok::<
                (ExprV, Seq<TokenV>),
                ParseErrV,
            >((e@, tokens_view(final(tokens)@))) && final(tokens)@.len() < old(tokens)@.len(),
            Err(pe) => call_spec(tokens_view(old(tokens)@)) == Err::<
                (ExprV, Seq<TokenV>),
                ParseErrV,
            >(pe@),
        },
    decreases old(tokens)@.len(), 60int,
{
    proof {
        crate::lexer::lemma_tokens_view_len(tokens@);
    }
    match primary(tokens) {
        Err(e) => Err(e),
        Ok(p) => {
            proof {
                crate::lexer::lemma_tokens_view_len(tokens@);
                if tokens@.len() > 0 {
                    lemma_tokens_view_drop_first(tokens@);
                }
            }
            if match_control(tokens, "(") {
                let args: Vec<AstExpression> = Vec::new();
                call_arguments(tokens, p, args)
            } else {
                Ok(p)
            }
        },
    }
}

fn call_arguments(tokens: &mut VecDeque<Token>, callee: AstExpression, args: Vec<AstExpression>) -> (r:
    Result<AstExpression, ParseError>)
    ensures
        match r {
            Ok(e) => call_arguments_spec(tokens_view(old(tokens)@), callee@, exprs_view(args@))
                == Ok::<(ExprV, Seq<TokenV>), ParseErrV>((e@, tokens_view(final(tokens)@)))
                && final(tokens)@.len() <= old(tokens)@.len(),
            Err(pe) => call_arguments_spec(tokens_view(old(tokens)@), callee@, exprs_view(args@))
                == Err::<(ExprV, Seq<TokenV>), ParseErrV>(pe@),
        },
    decreases old(tokens)@.len(), 1000int,
{
    proof {
        crate::lexer::lemma_tokens_view_len(tokens@);
        if tokens@.len() > 0 {
            lemma_tokens_view_drop_first(tokens@);
        }
    }
    let ghost argsv = exprs_view(args@);
    if match_control(tokens, ")") {
        proof {
            lemma_exprs_view_len(args@);
        }
        Ok(AstExpression::Call { callee: Box::new(callee), arguments: args })
    } else {
        match expression(tokens) {
            Err(e) => Err(e),
            Ok(a) => {
                proof {
                    crate::lexer::lemma_tokens_view_len(tokens@);
                }
                let ghost pre = args@;
                let mut args2 = args;
                args2.push(a);
                proof {
                    assert(args2@.drop_last() =~= pre);
                    assert(exprs_view(args2@) == exprs_view(pre).push(a@));
                }
                call_arguments(tokens, callee, args2)
            },
        }
    }
}

fn primary(tokens: &mut VecDeque<Token>) -> (r: Result<AstExpression, ParseError>)
    ensures
        match r {
            Ok(e) => primary_spec(tokens_view(old(tokens)@)) == Ok::<
                (ExprV, Seq<TokenV>),
                ParseErrV,
            >((e@, tokens_view(final(tokens)@))) && final(tokens)@.len() < old(tokens)@.len(),
            Err(pe) => primary_spec(tokens_view(old(tokens)@)) == Err::<
                (ExprV, Seq<TokenV>),
                ParseErrV,
            >(pe@),
        },
    decreases old(tokens)@.len(), 50int,
{
    proof {
        crate::lexer::lemma_tokens_view_len(tokens@);
        if tokens@.len() > 0 {
            crate::lexer::lemma_tokens_view_index(tokens@, 0);
            lemma_tokens_view_drop_first(tokens@);
        }
    }
    let next_token = match tokens.pop_front() {
        None => {
            return Err(ParseError::UnexpectedEndOfInput);
        },
        Some(t) => t,
    };
    if next_token.token_type == TokenType::Number {
        return Ok(AstExpression::NumberLiteral { value: next_token.contents });
    }
    if next_token.token_type == TokenType::StringLiteral {
        let len = next_token.contents.unicode_len();
        let value = if len <= 1 {
            String::new()
        } else {
            String::from_str(next_token.contents.as_str().substring_char(1, len - 1))
        };
        return Ok(AstExpression::StringLiteral { value });
    }
    if next_token.token_type == TokenType::Symbol {
        if str_eq(next_token.contents.as_str(), "true") {
            return Ok(AstExpression::BooleanLiteral { value: true });
        }
        if str_eq(next_token.contents.as_str(), "false") {
            return Ok(AstExpression::BooleanLiteral { value: false });
        }
        return Ok(AstExpression::Symbol { name: next_token.contents });
    }
    if next_token.token_type == TokenType::Control && str_eq(next_token.contents.as_str(), "(") {
        proof {
            crate::lexer::lemma_tokens_view_len(tokens@);
        }
        let inner = match expression(tokens) {
            Err(e) => {
                return Err(e);
            },
            Ok(e) => e,
        };
        proof {
            crate::lexer::lemma_tokens_view_len(tokens@);
            if tokens@.len() > 0 {
                lemma_tokens_view_drop_first(tokens@);
            }
        }
        if !match_control(tokens, ")") {
            return Err(ParseError::MissingParenthesisClose);
        }
        return Ok(inner);
    }
    Err(ParseError::UnexpectedToken { text: next_token.contents })
}

} // verus!
