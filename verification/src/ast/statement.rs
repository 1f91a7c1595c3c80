//! The statement parser: recursive descent over `if`, `while`,
//! declarations, reassignments, blocks and expression statements, the
//! first matching alternative winning.  Every function is proved to
//! produce exactly what the corresponding mathematical parser yields.

use crate::ast::expression::{expression, expression_spec};
use crate::ast::util::{
    consume_control, consume_control_spec, lemma_tokens_view_drop_first, match_control,
    match_keyword, matches_front, ParseErrV, ParseError,
};
use crate::ast::{
    clause_view, clauses_view, lemma_clauses_view_len, lemma_stmts_view_len, stmt_view, stmts_view,
    AstStatement, ClauseV, ConditionalClause, ExprV, StmtV,
};
use crate::lexer::{tokens_view, Token, TokenType, TokenV};
use std::collections::VecDeque;
use vstd::prelude::*;

verus! {

/// What a statement parse yields: the statement and the remaining
/// tokens, or the first error.
pub type StmtParse = Result<(StmtV, Seq<TokenV>), ParseErrV>;

/// Whether the tokens open with a reassignment: a symbol followed
/// immediately by `=`.
pub open spec fn reassignment_match(toks: Seq<TokenV>) -> bool {
    toks.len() >= 2 && toks[0].token_type == TokenType::Symbol && toks[1].token_type
        == TokenType::Control && toks[1].contents == "="@
}

pub open spec fn statement_spec(toks: Seq<TokenV>) -> StmtParse
    decreases toks.len(), 200int,
{
    if matches_front(toks, TokenType::Keyword, "if"@) {
        if_statement_spec(toks.drop_first())
    } else if matches_front(toks, TokenType::Keyword, "while"@) {
        while_statement_spec(toks.drop_first())
    } else if matches_front(toks, TokenType::Keyword, "let"@) {
        declaration_statement_spec(toks.drop_first())
    } else if reassignment_match(toks) {
        reassignment_statement_spec(toks.drop_first().drop_first(), toks[0].contents)
    } else if matches_front(toks, TokenType::Control, "{"@) {
        block_rest_spec(toks.drop_first(), Seq::empty())
    } else {
        expression_statement_spec(toks)
    }
}

/// One `(condition) body` clause, after its introducing keywords.
pub open spec fn conditional_clause_spec(toks: Seq<TokenV>) -> Result<
    (ClauseV, Seq<TokenV>),
    ParseErrV,
>
    decreases toks.len(), 180int,
{
    match consume_control_spec(toks, "("@) {
        Err(e) => Err(e),
        Ok(r1) => match expression_spec(r1) {
            Err(e) => Err(e),
            Ok((condition, r2)) => if r2.len() < toks.len() {
                match consume_control_spec(r2, ")"@) {
                    Err(e) => Err(e),
                    Ok(r3) => match statement_spec(r3) {
                        Err(e) => Err(e),
                        Ok((body, r4)) => Ok((ClauseV { condition, statement: body }, r4)),
                    },
                }
            } else {
                Err(ParseErrV::UnexpectedEndOfInput)
            },
        },
    }
}

pub open spec fn if_statement_spec(toks: Seq<TokenV>) -> StmtParse
    decreases toks.len(), 190int,
{
    match conditional_clause_spec(toks) {
        Err(e) => Err(e),
        Ok((c, rest)) => if rest.len() <= toks.len() {
            if_rest_spec(rest, seq![c])
        } else {
            Err(ParseErrV::UnexpectedEndOfInput)
        },
    }
}

/// The `else if` chain: clauses accumulate until a final `else` or the
/// chain ends; the else binds to the nearest unmatched `if`.
pub open spec fn if_rest_spec(toks: Seq<TokenV>, clauses: Seq<ClauseV>) -> StmtParse
    decreases toks.len(), 185int,
{
    if matches_front(toks, TokenType::Keyword, "else"@) {
        let r1 = toks.drop_first();
        if matches_front(r1, TokenType::Keyword, "if"@) {
            match conditional_clause_spec(r1.drop_first()) {
                Err(e) => Err(e),
                Ok((c, rest)) => if rest.len() < toks.len() {
                    if_rest_spec(rest, clauses.push(c))
                } else {
                    Err(ParseErrV::UnexpectedEndOfInput)
                },
            }
        } else {
            match statement_spec(r1) {
                Err(e) => Err(e),
                Ok((s, rest)) => Ok(
                    (StmtV::If { clauses, else_clause: Some(Box::new(s)) }, rest),
                ),
            }
        }
    } else {
        Ok((StmtV::If { clauses, else_clause: None }, toks))
    }
}

pub open spec fn while_statement_spec(toks: Seq<TokenV>) -> StmtParse
    decreases toks.len(), 175int,
{
    match consume_control_spec(toks, "("@) {
        Err(e) => Err(e),
        Ok(r1) => match expression_spec(r1) {
            Err(e) => Err(e),
            Ok((condition, r2)) => if r2.len() < toks.len() {
                match consume_control_spec(r2, ")"@) {
                    Err(e) => Err(e),
                    Ok(r3) => match statement_spec(r3) {
                        Err(e) => Err(e),
                        Ok((body, r4)) => Ok(
                            (StmtV::While { condition, body: Box::new(body) }, r4),
                        ),
                    },
                }
            } else {
                Err(ParseErrV::UnexpectedEndOfInput)
            },
        },
    }
}

/// The statements of a block, up to the closing brace.
pub open spec fn block_rest_spec(toks: Seq<TokenV>, acc: Seq<StmtV>) -> StmtParse
    decreases toks.len(), 2000int,
{
    if toks.len() == 0 {
        Err(ParseErrV::UnexpectedEndOfFileInBlock)
    } else if toks[0].token_type == TokenType::Control && toks[0].contents == "}"@ {
        Ok((StmtV::Block { statements: acc }, toks.drop_first()))
    } else {
        match statement_spec(toks) {
            Err(e) => Err(e),
            Ok((s, rest)) => if rest.len() < toks.len() {
                block_rest_spec(rest, acc.push(s))
            } else {
                Err(ParseErrV::UnexpectedEndOfInput)
            },
        }
    }
}

pub open spec fn declaration_statement_spec(toks: Seq<TokenV>) -> StmtParse
    decreases toks.len(), 170int,
{
    if toks.len() == 0 {
        Err(ParseErrV::ExpectedNameInDeclaration)
    } else {
        let name = toks[0].contents;
        match consume_control_spec(toks.drop_first(), "="@) {
            Err(e) => Err(e),
            Ok(r2) => match expression_spec(r2) {
                Err(e) => Err(e),
                Ok((e, r3)) => match consume_control_spec(r3, ";"@) {
                    Err(er) => Err(er),
                    Ok(r4) => Ok((StmtV::Declaration { name, expression: e }, r4)),
                },
            },
        }
    }
}

pub open spec fn reassignment_statement_spec(toks: Seq<TokenV>, name: Seq<char>) -> StmtParse
    decreases toks.len(), 165int,
{
    match expression_spec(toks) {
        Err(e) => Err(e),
        Ok((e, r2)) => match consume_control_spec(r2, ";"@) {
            Err(er) => Err(er),
            Ok(r3) => Ok((StmtV::Reassignment { name, expression: e }, r3)),
        },
    }
}

pub open spec fn expression_statement_spec(toks: Seq<TokenV>) -> StmtParse
    decreases toks.len(), 160int,
{
    match expression_spec(toks) {
        Err(e) => Err(e),
        Ok((e, r2)) => match consume_control_spec(r2, ";"@) {
            Err(er) => Err(er),
            Ok(r3) => Ok((StmtV::Expression { expression: e }, r3)),
        },
    }
}

// ---------------------------------------------------------------------
// The executable parser.
// ---------------------------------------------------------------------
#[verifier::rlimit(60)]
pub fn statement(tokens: &mut VecDeque<Token>) -> (r: Result<AstStatement, ParseError>)
    ensures
        match r {
            Ok(s) => statement_spec(tokens_view(old(tokens)@)) == Ok::<
                (StmtV, Seq<TokenV>),
                ParseErrV,
            >((s@, tokens_view(final(tokens)@))) && final(tokens)@.len() < old(tokens)@.len(),
            Err(pe) => statement_spec(tokens_view(old(tokens)@)) == Err::<
                (StmtV, Seq<TokenV>),
                ParseErrV,
            >(pe@),
        },
    decreases old(tokens)@.len(), 200int,
{
    proof {
        crate::lexer::lemma_tokens_view_len(tokens@);
        if tokens@.len() > 0 {
            crate::lexer::lemma_tokens_view_index(tokens@, 0);
            lemma_tokens_view_drop_first(tokens@);
        }
        if tokens@.len() > 1 {
            crate::lexer::lemma_tokens_view_index(tokens@, 1);
        }
    }
    if match_keyword(tokens, "if") {
        if_statement(tokens)
    } else if match_keyword(tokens, "while") {
        while_statement(tokens)
    } else if match_keyword(tokens, "let") {
        declaration_statement(tokens)
    } else {
        match match_reassignment(tokens) {
            Some(name) => {
                proof {
                    crate::lexer::lemma_tokens_view_len(old(tokens)@.drop_first());
                    lemma_tokens_view_drop_first(old(tokens)@.drop_first());
                }
                reassignment_statement(tokens, name)
            },
            None => {
                if match_control(tokens, "{") {
                    let statements: Vec<AstStatement> = Vec::new();
                    proof {
                        assert(stmts_view(Seq::<AstStatement>::empty()) == Seq::<StmtV>::empty());
                    }
                    block_rest(tokens, statements)
                } else {
                    expression_statement(tokens)
                }
            },
        }
    }
}

/// Recognizes a symbol followed immediately by `=`, consuming both and
/// handing back the name.
fn match_reassignment(tokens: &mut VecDeque<Token>) -> (r: Option<String>)
    ensures
        match r {
            Some(name) => {
                &&& reassignment_match(tokens_view(old(tokens)@))
                &&& name@ == tokens_view(old(tokens)@)[0].contents
                &&& final(tokens)@ == old(tokens)@.drop_first().drop_first()
            },
            None => {
                &&& !reassignment_match(tokens_view(old(tokens)@))
                &&& final(tokens)@ == old(tokens)@
            },
        },
{
    proof {
        crate::lexer::lemma_tokens_view_len(tokens@);
        if tokens@.len() > 0 {
            crate::lexer::lemma_tokens_view_index(tokens@, 0);
        }
        if tokens@.len() > 1 {
            crate::lexer::lemma_tokens_view_index(tokens@, 1);
        }
    }
    if tokens.len() < 2 {
        return None;
    }
    let first_is_symbol = tokens[0].token_type == TokenType::Symbol;
    let second_is_equals = tokens[1].token_type == TokenType::Control && crate::text::str_eq(
        tokens[1].contents.as_str(),
        "=",
    );
    if first_is_symbol && second_is_equals {
        let name = tokens.pop_front().unwrap();
        tokens.pop_front().unwrap();
        proof {
            assert(tokens@ =~= old(tokens)@.drop_first().drop_first());
        }
        Some(name.contents)
    } else {
        None
    }
}

fn if_statement(tokens: &mut VecDeque<Token>) -> (r: Result<AstStatement, ParseError>)
    ensures
        match r {
            Ok(s) => if_statement_spec(tokens_view(old(tokens)@)) == Ok::<
                (StmtV, Seq<TokenV>),
                ParseErrV,
            >((s@, tokens_view(final(tokens)@))) && final(tokens)@.len() < old(tokens)@.len(),
            Err(pe) => if_statement_spec(tokens_view(old(tokens)@)) == Err::<
                (StmtV, Seq<TokenV>),
                ParseErrV,
            >(pe@),
        },
    decreases old(tokens)@.len(), 190int,
{
    proof {
        crate::lexer::lemma_tokens_view_len(tokens@);
    }
    match conditional_clause(tokens) {
        Err(e) => Err(e),
        Ok(first) => {
            proof {
                crate::lexer::lemma_tokens_view_len(tokens@);
            }
            let ghost fv = first@;
            let mut clauses: Vec<ConditionalClause> = Vec::new();
            clauses.push(first);
            proof {
                assert(clauses@.drop_last() =~= Seq::<ConditionalClause>::empty());
                assert(clauses_view(Seq::<ConditionalClause>::empty()) == Seq::<ClauseV>::empty());
                assert(clauses_view(clauses@) == Seq::<ClauseV>::empty().push(fv));
                assert(Seq::<ClauseV>::empty().push(fv) =~= seq![fv]);
            }
            if_rest(tokens, clauses)
        },
    }
}

fn conditional_clause(tokens: &mut VecDeque<Token>) -> (r: Result<ConditionalClause, ParseError>)
    ensures
        match r {
            Ok(c) => conditional_clause_spec(tokens_view(old(tokens)@)) == Ok::<
                (ClauseV, Seq<TokenV>),
                ParseErrV,
            >((c@, tokens_view(final(tokens)@))) && final(tokens)@.len() < old(tokens)@.len(),
            Err(pe) => conditional_clause_spec(tokens_view(old(tokens)@)) == Err::<
                (ClauseV, Seq<TokenV>),
                ParseErrV,
            >(pe@),
        },
    decreases old(tokens)@.len(), 180int,
{
    proof {
        crate::lexer::lemma_tokens_view_len(tokens@);
    }
    match consume_control(tokens, "(") {
        Err(e) => {
            return Err(e);
        },
        Ok(()) => {},
    }
    proof {
        crate::lexer::lemma_tokens_view_len(tokens@);
    }
    let condition = match expression(tokens) {
        Err(e) => {
            return Err(e);
        },
        Ok(c) => c,
    };
    proof {
        crate::lexer::lemma_tokens_view_len(tokens@);
    }
    match consume_control(tokens, ")") {
        Err(e) => {
            return Err(e);
        },
        Ok(()) => {},
    }
    proof {
        crate::lexer::lemma_tokens_view_len(tokens@);
    }
    let body = match statement(tokens) {
        Err(e) => {
            return Err(e);
        },
        Ok(s) => s,
    };
    Ok(ConditionalClause { condition, statement: body })
}

fn if_rest(tokens: &mut VecDeque<Token>, clauses: Vec<ConditionalClause>) -> (r: Result<
    AstStatement,
    ParseError,
>)
    ensures
        match r {
            Ok(s) => if_rest_spec(tokens_view(old(tokens)@), clauses_view(clauses@)) == Ok::<
                (StmtV, Seq<TokenV>),
                ParseErrV,
            >((s@, tokens_view(final(tokens)@))) && final(tokens)@.len() <= old(tokens)@.len(),
            Err(pe) => if_rest_spec(tokens_view(old(tokens)@), clauses_view(clauses@)) == Err::<
                (StmtV, Seq<TokenV>),
                ParseErrV,
            >(pe@),
        },
    decreases old(tokens)@.len(), 185int,
{
    proof {
        crate::lexer::lemma_tokens_view_len(tokens@);
        if tokens@.len() > 0 {
            lemma_tokens_view_drop_first(tokens@);
        }
    }
    if match_keyword(tokens, "else") {
        proof {
            crate::lexer::lemma_tokens_view_len(tokens@);
            if tokens@.len() > 0 {
                lemma_tokens_view_drop_first(tokens@);
            }
        }
        if match_keyword(tokens, "if") {
            proof {
                crate::lexer::lemma_tokens_view_len(tokens@);
            }
            match conditional_clause(tokens) {
                Err(e) => Err(e),
                Ok(c) => {
                    proof {
                        crate::lexer::lemma_tokens_view_len(tokens@);
                    }
                    let ghost pre = clauses@;
                    let mut clauses2 = clauses;
                    clauses2.push(c);
                    proof {
                        assert(clauses2@.drop_last() =~= pre);
                        assert(clauses_view(clauses2@) == clauses_view(pre).push(c@));
                    }
                    if_rest(tokens, clauses2)
                },
            }
        } else {
            match statement(tokens) {
                Err(e) => Err(e),
                Ok(s) => Ok(
                    AstStatement::If {
                        conditional_clauses: clauses,
                        else_clause: Some(Box::new(s)),
                    },
                ),
            }
        }
    } else {
        Ok(AstStatement::If { conditional_clauses: clauses, else_clause: None })
    }
}

fn while_statement(tokens: &mut VecDeque<Token>) -> (r: Result<AstStatement, ParseError>)
    ensures
        match r {
            Ok(s) => while_statement_spec(tokens_view(old(tokens)@)) == Ok::<
                (StmtV, Seq<TokenV>),
                ParseErrV,
            >((s@, tokens_view(final(tokens)@))) && final(tokens)@.len() < old(tokens)@.len(),
            Err(pe) => while_statement_spec(tokens_view(old(tokens)@)) == Err::<
                (StmtV, Seq<TokenV>),
                ParseErrV,
            >(pe@),
        },
    decreases old(tokens)@.len(), 175int,
{
    proof {
        crate::lexer::lemma_tokens_view_len(tokens@);
    }
    match consume_control(tokens, "(") {
        Err(e) => {
            return Err(e);
        },
        Ok(()) => {},
    }
    proof {
        crate::lexer::lemma_tokens_view_len(tokens@);
    }
    let condition = match expression(tokens) {
        Err(e) => {
            return Err(e);
        },
        Ok(c) => c,
    };
    proof {
        crate::lexer::lemma_tokens_view_len(tokens@);
    }
    match consume_control(tokens, ")") {
        Err(e) => {
            return Err(e);
        },
        Ok(()) => {},
    }
    proof {
        crate::lexer::lemma_tokens_view_len(tokens@);
    }
    let body = match statement(tokens) {
        Err(e) => {
            return Err(e);
        },
        Ok(s) => s,
    };
    Ok(AstStatement::While { condition, statement: Box::new(body) })
}

fn block_rest(tokens: &mut VecDeque<Token>, statements: Vec<AstStatement>) -> (r: Result<
    AstStatement,
    ParseError,
>)
    ensures
        match r {
            Ok(s) => block_rest_spec(tokens_view(old(tokens)@), stmts_view(statements@)) == Ok::<
                (StmtV, Seq<TokenV>),
                ParseErrV,
            >((s@, tokens_view(final(tokens)@))) && final(tokens)@.len() <= old(tokens)@.len(),
            Err(pe) => block_rest_spec(tokens_view(old(tokens)@), stmts_view(statements@)) == Err::<
                (StmtV, Seq<TokenV>),
                ParseErrV,
            >(pe@),
        },
    decreases old(tokens)@.len(), 2000int,
{
    proof {
        crate::lexer::lemma_tokens_view_len(tokens@);
        if tokens@.len() > 0 {
            crate::lexer::lemma_tokens_view_index(tokens@, 0);
            lemma_tokens_view_drop_first(tokens@);
        }
    }
    if tokens.len() == 0 {
        return Err(ParseError::UnexpectedEndOfFileInBlock);
    }
    if match_control(tokens, "}") {
        return Ok(AstStatement::Block { statements });
    }
    match statement(tokens) {
        Err(e) => Err(e),
        Ok(s) => {
            proof {
                crate::lexer::lemma_tokens_view_len(tokens@);
            }
            let ghost pre = statements@;
            let mut statements2 = statements;
            statements2.push(s);
            proof {
                assert(statements2@.drop_last() =~= pre);
                assert(stmts_view(statements2@) == stmts_view(pre).push(s@));
            }
            block_rest(tokens, statements2)
        },
    }
}

fn declaration_statement(tokens: &mut VecDeque<Token>) -> (r: Result<AstStatement, ParseError>)
    ensures
        match r {
            Ok(s) => declaration_statement_spec(tokens_view(old(tokens)@)) == Ok::<
                (StmtV, Seq<TokenV>),
                ParseErrV,
            >((s@, tokens_view(final(tokens)@))) && final(tokens)@.len() < old(tokens)@.len(),
            Err(pe) => declaration_statement_spec(tokens_view(old(tokens)@)) == Err::<
                (StmtV, Seq<TokenV>),
                ParseErrV,
            >(pe@),
        },
    decreases old(tokens)@.len(), 170int,
{
    proof {
        crate::lexer::lemma_tokens_view_len(tokens@);
        if tokens@.len() > 0 {
            crate::lexer::lemma_tokens_view_index(tokens@, 0);
            lemma_tokens_view_drop_first(tokens@);
        }
    }
    let name_token = match tokens.pop_front() {
        None => {
            return Err(ParseError::ExpectedNameInDeclaration);
        },
        Some(t) => t,
    };
    proof {
        crate::lexer::lemma_tokens_view_len(tokens@);
    }
    match consume_control(tokens, "=") {
        Err(e) => {
            return Err(e);
        },
        Ok(()) => {},
    }
    proof {
        crate::lexer::lemma_tokens_view_len(tokens@);
    }
    let value = match expression(tokens) {
        Err(e) => {
            return Err(e);
        },
        Ok(e) => e,
    };
    match consume_control(tokens, ";") {
        Err(e) => {
            return Err(e);
        },
        Ok(()) => {},
    }
    Ok(AstStatement::Declaration { name: name_token.contents, expression: value })
}

fn reassignment_statement(tokens: &mut VecDeque<Token>, name: String) -> (r: Result<
    AstStatement,
    ParseError,
>)
    ensures
        match r {
            Ok(s) => reassignment_statement_spec(tokens_view(old(tokens)@), name@) == Ok::<
                (StmtV, Seq<TokenV>),
                ParseErrV,
            >((s@, tokens_view(final(tokens)@))) && final(tokens)@.len() < old(tokens)@.len(),
            Err(pe) => reassignment_statement_spec(tokens_view(old(tokens)@), name@) == Err::<
                (StmtV, Seq<TokenV>),
                ParseErrV,
            >(pe@),
        },
    decreases old(tokens)@.len(), 165int,
{
    proof {
        crate::lexer::lemma_tokens_view_len(tokens@);
    }
    let value = match expression(tokens) {
        Err(e) => {
            return Err(e);
        },
        Ok(e) => e,
    };
    match consume_control(tokens, ";") {
        Err(e) => {
            return Err(e);
        },
        Ok(()) => {},
    }
    Ok(AstStatement::Reassignment { name, expression: value })
}

fn expression_statement(tokens: &mut VecDeque<Token>) -> (r: Result<AstStatement, ParseError>)
    ensures
        match r {
            Ok(s) => expression_statement_spec(tokens_view(old(tokens)@)) == Ok::<
                (StmtV, Seq<TokenV>),
                ParseErrV,
            >((s@, tokens_view(final(tokens)@))) && final(tokens)@.len() < old(tokens)@.len(),
            Err(pe) => expression_statement_spec(tokens_view(old(tokens)@)) == Err::<
                (StmtV, Seq<TokenV>),
                ParseErrV,
            >(pe@),
        },
    decreases old(tokens)@.len(), 160int,
{
    proof {
        crate::lexer::lemma_tokens_view_len(tokens@);
    }
    let value = match expression(tokens) {
        Err(e) => {
            return Err(e);
        },
        Ok(e) => e,
    };
    match consume_control(tokens, ";") {
        Err(e) => {
            return Err(e);
        },
        Ok(()) => {},
    }
    Ok(AstStatement::Expression { expression: value })
}

} // verus!
