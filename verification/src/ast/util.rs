//! Token-matching helpers shared by the parser, and the parse error
//! type.  The parser consumes tokens destructively from the front of
//! the queue.

use crate::ast::operator::{operator_spec, OperatorType};
use crate::lexer::{tokens_view, Token, TokenType, TokenV};
use crate::text::str_eq;
use std::collections::VecDeque;
use vstd::prelude::*;
use vstd::string::StringExecFns;

verus! {

/// A failure of parsing: the whole parse stops at the first one.
#[derive(PartialEq, Debug)]
pub enum ParseError {
    ExpectedToken { expected: String, encountered: String },
    ExpectedTokenEndOfInput { expected: String },
    UnexpectedToken { text: String },
    UnexpectedEndOfInput,
    MissingParenthesisClose,
    UnexpectedEndOfFileInBlock,
    ExpectedNameInDeclaration,
}

/// The mathematical view of a parse error.
pub enum ParseErrV {
    ExpectedToken { expected: Seq<char>, encountered: Seq<char> },
    ExpectedTokenEndOfInput { expected: Seq<char> },
    UnexpectedToken { text: Seq<char> },
    UnexpectedEndOfInput,
    MissingParenthesisClose,
    UnexpectedEndOfFileInBlock,
    ExpectedNameInDeclaration,
}

/// The human-readable message of a parse error.
pub open spec fn parse_error_message(e: ParseErrV) -> Seq<char> {
    match e {
        ParseErrV::ExpectedToken { expected, encountered } => "Expected '"@ + expected
            + "', encountered "@ + encountered,
        ParseErrV::ExpectedTokenEndOfInput { expected } => "Expected '"@ + expected
            + "', encountered end of input"@,
        ParseErrV::UnexpectedToken { text } => "Unexpected end of expression "@ + text,
        ParseErrV::UnexpectedEndOfInput => "Unexpected end of expression"@,
        ParseErrV::MissingParenthesisClose => "Expected parenthesis close ')'"@,
        ParseErrV::UnexpectedEndOfFileInBlock => "Unexpected end of file after '{'"@,
        ParseErrV::ExpectedNameInDeclaration => "Expected name in let statement"@,
    }
}

impl ParseError {
    /// Renders this error as a human-readable message.
    pub fn message(&self) -> (s: String)
        ensures
            s@ == parse_error_message(self@),
    {
        match self {
            ParseError::ExpectedToken { expected, encountered } => {
                let mut s = String::from_str("Expected '");
                crate::text::push_str(&mut s, expected.as_str());
                crate::text::push_str(&mut s, "', encountered ");
                crate::text::push_str(&mut s, encountered.as_str());
                s
            },
            ParseError::ExpectedTokenEndOfInput { expected } => {
                let mut s = String::from_str("Expected '");
                crate::text::push_str(&mut s, expected.as_str());
                crate::text::push_str(&mut s, "', encountered end of input");
                s
            },
            ParseError::UnexpectedToken { text } => {
                let mut s = String::from_str("Unexpected end of expression ");
                crate::text::push_str(&mut s, text.as_str());
                s
            },
            ParseError::UnexpectedEndOfInput => String::from_str("Unexpected end of expression"),
            ParseError::MissingParenthesisClose => String::from_str(
                "Expected parenthesis close ')'",
            ),
            ParseError::UnexpectedEndOfFileInBlock => String::from_str(
                "Unexpected end of file after '{'",
            ),
            ParseError::ExpectedNameInDeclaration => String::from_str(
                "Expected name in let statement",
            ),
        }
    }
}

impl View for ParseError {
    type V = ParseErrV;

    open spec fn view(&self) -> ParseErrV {
        match self {
            ParseError::ExpectedToken { expected, encountered } => ParseErrV::ExpectedToken {
                expected: expected@,
                encountered: encountered@,
            },
            ParseError::ExpectedTokenEndOfInput { expected } => ParseErrV::ExpectedTokenEndOfInput {
                expected: expected@,
            },
            ParseError::UnexpectedToken { text } => ParseErrV::UnexpectedToken { text: text@ },
            ParseError::UnexpectedEndOfInput => ParseErrV::UnexpectedEndOfInput,
            ParseError::MissingParenthesisClose => ParseErrV::MissingParenthesisClose,
            ParseError::UnexpectedEndOfFileInBlock => ParseErrV::UnexpectedEndOfFileInBlock,
            ParseError::ExpectedNameInDeclaration => ParseErrV::ExpectedNameInDeclaration,
        }
    }
}

// ---------------------------------------------------------------------
// What the matching helpers recognize, over the remaining tokens.
// ---------------------------------------------------------------------
/// Whether the front token has the given kind and text.
pub open spec fn matches_front(toks: Seq<TokenV>, token_type: TokenType, text: Seq<char>) -> bool {
    toks.len() > 0 && toks[0].token_type == token_type && toks[0].contents == text
}

/// The operator the front token denotes, when it is one of `ops`.
pub open spec fn match_operator_spec(toks: Seq<TokenV>, ops: Seq<OperatorType>) -> Option<
    OperatorType,
> {
    if toks.len() > 0 {
        match operator_spec(toks[0].contents) {
            Some(op) => if ops.contains(op) {
                Some(op)
            } else {
                None
            },
            None => None,
        }
    } else {
        None
    }
}

/// What consuming an expected control token yields: the remaining
/// tokens, or the error naming what was found instead.
pub open spec fn consume_control_spec(toks: Seq<TokenV>, text: Seq<char>) -> Result<
    Seq<TokenV>,
    ParseErrV,
> {
    if toks.len() == 0 {
        Err(ParseErrV::ExpectedTokenEndOfInput { expected: text })
    } else if toks[0].token_type == TokenType::Control && toks[0].contents == text {
        Ok(toks.drop_first())
    } else {
        Err(ParseErrV::ExpectedToken { expected: text, encountered: toks[0].contents })
    }
}

// ---------------------------------------------------------------------
// The executable helpers.
// ---------------------------------------------------------------------
/// Consumes the front token when it denotes one of the given operators.
pub(crate) fn match_operator(tokens: &mut VecDeque<Token>, operators: &[OperatorType]) -> (r:
    Option<OperatorType>)
    ensures
        r == match_operator_spec(tokens_view(old(tokens)@), operators@),
        match r {
            Some(op) => final(tokens)@ == old(tokens)@.drop_first(),
            None => final(tokens)@ == old(tokens)@,
        },
{
    proof {
        crate::lexer::lemma_tokens_view_len(tokens@);
    }
    if tokens.len() == 0 {
        return None;
    }
    proof {
        crate::lexer::lemma_tokens_view_index(tokens@, 0);
    }
    let front = &tokens[0];
    let op = match crate::ast::operator::parse(front.contents.as_str()) {
        Some(op) => op,
        None => {
            return None;
        },
    };
    let mut found = false;
    let mut j: usize = 0;
    while j < operators.len()
        invariant
            j <= operators@.len(),
            found == exists|k: int| 0 <= k < j && operators@[k] == op,
        decreases operators@.len() - j,
    {
        if operators[j] == op {
            found = true;
        }
        j = j + 1;
    }
    if found {
        tokens.pop_front();
        proof {
            assert(operators@.contains(op));
        }
        Some(op)
    } else {
        proof {
            assert(!operators@.contains(op));
        }
        None
    }
}

/// Consumes the front token when it is the expected control token.
pub(crate) fn match_control(tokens: &mut VecDeque<Token>, expected: &str) -> (r: bool)
    ensures
        r == matches_front(tokens_view(old(tokens)@), TokenType::Control, expected@),
        r ==> final(tokens)@ == old(tokens)@.drop_first(),
        !r ==> final(tokens)@ == old(tokens)@,
{
    match_type_and_content(tokens, TokenType::Control, expected)
}

/// Consumes the front token when it is the expected keyword.
pub(crate) fn match_keyword(tokens: &mut VecDeque<Token>, expected: &str) -> (r: bool)
    ensures
        r == matches_front(tokens_view(old(tokens)@), TokenType::Keyword, expected@),
        r ==> final(tokens)@ == old(tokens)@.drop_first(),
        !r ==> final(tokens)@ == old(tokens)@,
{
    match_type_and_content(tokens, TokenType::Keyword, expected)
}

/// Consumes the front token when it has the given kind and text.
fn match_type_and_content(tokens: &mut VecDeque<Token>, token_type: TokenType, expected: &str) -> (r:
    bool)
    ensures
        r == matches_front(tokens_view(old(tokens)@), token_type, expected@),
        r ==> final(tokens)@ == old(tokens)@.drop_first(),
        !r ==> final(tokens)@ == old(tokens)@,
{
    proof {
        crate::lexer::lemma_tokens_view_len(tokens@);
    }
    if tokens.len() == 0 {
        return false;
    }
    proof {
        crate::lexer::lemma_tokens_view_index(tokens@, 0);
    }
    let front = &tokens[0];
    if front.token_type == token_type && str_eq(front.contents.as_str(), expected) {
        tokens.pop_front();
        true
    } else {
        false
    }
}

/// Consumes the expected control token or fails, naming what was found.
pub(crate) fn consume_control(tokens: &mut VecDeque<Token>, expected: &str) -> (r: Result<
    (),
    ParseError,
>)
    ensures
        match r {
            Ok(()) => {
                &&& consume_control_spec(tokens_view(old(tokens)@), expected@) == Ok::<
                    Seq<TokenV>,
                    ParseErrV,
                >(tokens_view(final(tokens)@))
                &&& final(tokens)@ == old(tokens)@.drop_first()
            },
            Err(e) => consume_control_spec(tokens_view(old(tokens)@), expected@) == Err::<
                Seq<TokenV>,
                ParseErrV,
            >(e@),
        },
{
    proof {
        crate::lexer::lemma_tokens_view_len(tokens@);
        if tokens@.len() > 0 {
            crate::lexer::lemma_tokens_view_index(tokens@, 0);
        }
    }
    let ghost pre = tokens@;
    match tokens.pop_front() {
        None => Err(
            ParseError::ExpectedTokenEndOfInput { expected: String::from_str(expected) },
        ),
        Some(token) => {
            if token.token_type == TokenType::Control && str_eq(
                token.contents.as_str(),
                expected,
            ) {
                proof {
                    lemma_tokens_view_drop_first(pre);
                }
                Ok(())
            } else {
                Err(
                    ParseError::ExpectedToken {
                        expected: String::from_str(expected),
                        encountered: token.contents,
                    },
                )
            }
        },
    }
}

/// Dropping the front token commutes with taking views.
pub proof fn lemma_tokens_view_drop_first(ts: Seq<Token>)
    requires
        ts.len() > 0,
    ensures
        tokens_view(ts.drop_first()) == tokens_view(ts).drop_first(),
{
    crate::lexer::lemma_tokens_view_len(ts);
    crate::lexer::lemma_tokens_view_len(ts.drop_first());
    assert forall|i: int| 0 <= i < ts.len() - 1 implies tokens_view(ts.drop_first())[i]
        == tokens_view(ts).drop_first()[i] by {
        crate::lexer::lemma_tokens_view_index(ts.drop_first(), i);
        crate::lexer::lemma_tokens_view_index(ts, i + 1);
        assert(ts.drop_first()[i] == ts[i + 1]);
    }
    assert(tokens_view(ts.drop_first()) =~= tokens_view(ts).drop_first());
}

} // verus!
