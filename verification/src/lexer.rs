//! The lexer: converts raw source text into a flat sequence of tokens,
//! working line by line.  Multi-character operators are recognized by
//! holding a run of consecutive control characters together; reserved
//! words are reclassified from symbols to keywords.

use crate::text::{
    ascii_alphabetic, ascii_alphanumeric, ascii_digit, char_is_whitespace, chars_of, is_ascii_alphabetic,
    is_ascii_alphanumeric, is_digit, is_whitespace_char, str_eq, string_of,
};
use std::collections::VecDeque;
use vstd::prelude::*;

verus! {

#[derive(PartialEq, Eq, Structural, Copy, Clone, Debug)]
pub enum TokenType {
    Blank,
    Keyword,
    Symbol,
    Number,
    Control,
    StringLiteral,
}

#[derive(PartialEq, Debug)]
pub struct Token {
    pub token_type: TokenType,
    pub contents: String,
}

/// The mathematical view of a token.
pub struct TokenV {
    pub token_type: TokenType,
    pub contents: Seq<char>,
}

impl View for Token {
    type V = TokenV;

    open spec fn view(&self) -> TokenV {
        TokenV { token_type: self.token_type, contents: self.contents@ }
    }
}

pub open spec fn tokens_view(ts: Seq<Token>) -> Seq<TokenV>
    decreases ts,
{
    if ts.len() == 0 {
        Seq::empty()
    } else {
        tokens_view(ts.drop_last()).push(ts.last()@)
    }
}

pub proof fn lemma_tokens_view_len(ts: Seq<Token>)
    ensures
        tokens_view(ts).len() == ts.len(),
    decreases ts,
{
    if ts.len() > 0 {
        lemma_tokens_view_len(ts.drop_last());
    }
}

pub proof fn lemma_tokens_view_index(ts: Seq<Token>, i: int)
    requires
        0 <= i < ts.len(),
    ensures
        tokens_view(ts).len() == ts.len(),
        tokens_view(ts)[i] == ts[i]@,
    decreases ts,
{
    lemma_tokens_view_len(ts);
    if i < ts.len() - 1 {
        lemma_tokens_view_index(ts.drop_last(), i);
    }
}

/// An illegal character, with its 1-based position and the kind of
/// token that was being scanned when it was met.
#[derive(PartialEq, Debug)]
pub struct LexError {
    pub ch: char,
    pub line: usize,
    pub column: usize,
    pub scanning: TokenType,
}

/// The mathematical view of a lexical error.
pub struct LexErrV {
    pub ch: char,
    pub line: int,
    pub column: int,
    pub scanning: TokenType,
}

/// The name of a token kind, as lexical error messages spell it.
pub open spec fn kind_label(kind: TokenType) -> Seq<char> {
    match kind {
        TokenType::Symbol => "symbol"@,
        TokenType::Number => "number"@,
        TokenType::Control => "control characters"@,
        TokenType::Keyword => "keyword"@,
        TokenType::StringLiteral => "string literal"@,
        TokenType::Blank => "token"@,
    }
}

/// The human-readable message of a lexical error, naming the 1-based
/// line and column of the offending character and the kind of token
/// being scanned.
pub open spec fn lex_error_message(e: LexErrV) -> Seq<char> {
    "Unexpected character '"@ + seq![e.ch] + "' at "@ + crate::text::dec_digits(e.line as nat)
        + ":"@ + crate::text::dec_digits(e.column as nat) + " when reading "@ + kind_label(
        e.scanning,
    )
}

impl LexError {
    /// Renders this error as a human-readable message.
    pub fn message(&self) -> (s: String)
        ensures
            s@ == lex_error_message(self@),
    {
        let mut s = String::from_str("Unexpected character '");
        crate::text::push_char(&mut s, self.ch);
        proof {
            assert("Unexpected character '"@ + seq![self.ch] =~= "Unexpected character '"@.push(
                self.ch,
            ));
        }
        crate::text::push_str(&mut s, "' at ");
        crate::text::push_usize_decimal(&mut s, self.line);
        crate::text::push_str(&mut s, ":");
        crate::text::push_usize_decimal(&mut s, self.column);
        crate::text::push_str(&mut s, " when reading ");
        let label = match self.scanning {
            TokenType::Symbol => "symbol",
            TokenType::Number => "number",
            TokenType::Control => "control characters",
            TokenType::Keyword => "keyword",
            TokenType::StringLiteral => "string literal",
            TokenType::Blank => "token",
        };
        crate::text::push_str(&mut s, label);
        s
    }
}

impl View for LexError {
    type V = LexErrV;

    open spec fn view(&self) -> LexErrV {
        LexErrV {
            ch: self.ch,
            line: self.line as int,
            column: self.column as int,
            scanning: self.scanning,
        }
    }
}

// ---------------------------------------------------------------------
// The lexing state machine, as a mathematical function.
// ---------------------------------------------------------------------
pub open spec fn is_control_char(c: char) -> bool {
    c == '+' || c == '-' || c == '*' || c == '/' || c == '!' || c == '=' || c == '<' || c == '>'
        || c == '(' || c == ')' || c == '{' || c == '}' || c == ';' || c == '&' || c == '|'
}

pub open spec fn is_multichar_operator_char(c: char) -> bool {
    c == '=' || c == '!' || c == '<' || c == '>' || c == '&' || c == '|'
}

pub open spec fn is_reserved_keyword(s: Seq<char>) -> bool {
    s == "let"@ || s == "if"@ || s == "while"@ || s == "else"@
}

/// The lexer's running state within one line: the tokens produced so
/// far, the characters of the token being built, and its kind.
pub struct LexState {
    pub tokens: Seq<TokenV>,
    pub buffer: Seq<char>,
    pub kind: TokenType,
}

/// Ends the token being built, if any: a bare symbol that spells a
/// reserved word is reclassified as a keyword.
pub open spec fn lex_terminate(st: LexState) -> LexState {
    if st.buffer.len() == 0 {
        st
    } else {
        let final_type = if st.kind == TokenType::Symbol && is_reserved_keyword(st.buffer) {
            TokenType::Keyword
        } else {
            st.kind
        };
        LexState {
            tokens: st.tokens.push(TokenV { token_type: final_type, contents: st.buffer }),
            buffer: Seq::empty(),
            kind: TokenType::Blank,
        }
    }
}

/// One step of the lexer on one character.  An error names the kind of
/// token being scanned when the illegal character was met.
pub open spec fn lex_step(st: LexState, c: char) -> Result<LexState, TokenType> {
    if st.kind == TokenType::StringLiteral {
        let st2 = LexState { tokens: st.tokens, buffer: st.buffer.push(c), kind: st.kind };
        if c == '"' {
            Ok(lex_terminate(st2))
        } else {
            Ok(st2)
        }
    } else if char_is_whitespace(c) {
        Ok(lex_terminate(st))
    } else {
        let st1 = if st.kind != TokenType::Control && is_control_char(c) {
            lex_terminate(st)
        } else {
            st
        };
        let new_token = st1.kind == TokenType::Control && !is_control_char(c);
        if st1.kind == TokenType::Blank || new_token {
            let st2 = lex_terminate(st1);
            let kind = if is_ascii_alphabetic(c) || c == '_' {
                TokenType::Symbol
            } else if is_digit(c) {
                TokenType::Number
            } else if c == '"' {
                TokenType::StringLiteral
            } else if is_control_char(c) {
                TokenType::Control
            } else {
                st2.kind
            };
            let st3 = LexState { tokens: st2.tokens, buffer: st2.buffer.push(c), kind };
            if kind == TokenType::Control && !is_multichar_operator_char(c) {
                Ok(lex_terminate(st3))
            } else {
                Ok(st3)
            }
        } else {
            match st1.kind {
                TokenType::Symbol => if !is_ascii_alphanumeric(c) {
                    Err(TokenType::Symbol)
                } else {
                    Ok(
                        LexState {
                            tokens: st1.tokens,
                            buffer: st1.buffer.push(c),
                            kind: st1.kind,
                        },
                    )
                },
                TokenType::Number => if !is_digit(c) {
                    Err(TokenType::Number)
                } else {
                    Ok(
                        LexState {
                            tokens: st1.tokens,
                            buffer: st1.buffer.push(c),
                            kind: st1.kind,
                        },
                    )
                },
                TokenType::Control => if !is_control_char(c) {
                    Err(TokenType::Control)
                } else {
                    Ok(
                        LexState {
                            tokens: st1.tokens,
                            buffer: st1.buffer.push(c),
                            kind: st1.kind,
                        },
                    )
                },
                _ => Ok(st1),
            }
        }
    }
}

pub open spec fn lex_initial() -> LexState {
    LexState { tokens: Seq::empty(), buffer: Seq::empty(), kind: TokenType::Blank }
}

/// Lexes the rest of one line from a given state.  An error carries the
/// 0-based column of the offending character and the kind being
/// scanned.
pub open spec fn lex_line_from(st: LexState, line: Seq<char>, i: int) -> Result<
    Seq<TokenV>,
    (int, TokenType),
>
    decreases line.len() - i,
{
    if i < 0 || i >= line.len() {
        Ok(lex_terminate(st).tokens)
    } else {
        match lex_step(st, line[i]) {
            Ok(st2) => lex_line_from(st2, line, i + 1),
            Err(kind) => Err((i, kind)),
        }
    }
}

/// What lexing one line yields.
pub open spec fn lex_line_spec(line: Seq<char>) -> Result<Seq<TokenV>, (int, TokenType)> {
    lex_line_from(lex_initial(), line, 0)
}

/// The lines of a source text: split at newlines, with a carriage
/// return before a newline dropped, and an optional final line ending.
pub open spec fn split_lines_from(s: Seq<char>, i: int, cur: Seq<char>) -> Seq<Seq<char>>
    decreases s.len() - i,
{
    if i < 0 || i >= s.len() {
        if cur.len() == 0 {
            Seq::empty()
        } else {
            seq![cur]
        }
    } else if s[i] == '\n' {
        seq![strip_carriage_return(cur)] + split_lines_from(s, i + 1, Seq::empty())
    } else {
        split_lines_from(s, i + 1, cur.push(s[i]))
    }
}

pub open spec fn strip_carriage_return(line: Seq<char>) -> Seq<char> {
    if line.len() > 0 && line.last() == '\r' {
        line.drop_last()
    } else {
        line
    }
}

pub open spec fn split_lines(s: Seq<char>) -> Seq<Seq<char>> {
    split_lines_from(s, 0, Seq::empty())
}

/// Lexes the lines starting at index `i`, stopping at the first line
/// with an illegal character.
pub open spec fn lex_lines_from(lines: Seq<Seq<char>>, i: int) -> Result<Seq<TokenV>, LexErrV>
    decreases lines.len() - i,
{
    if i < 0 || i >= lines.len() {
        Ok(Seq::empty())
    } else {
        match lex_line_spec(lines[i]) {
            Err((col, kind)) => Err(
                LexErrV { ch: lines[i][col], line: i + 1, column: col + 1, scanning: kind },
            ),
            Ok(toks) => match lex_lines_from(lines, i + 1) {
                Err(e) => Err(e),
                Ok(rest) => Ok(toks + rest),
            },
        }
    }
}

/// What lexing a whole source text yields.
pub open spec fn lex_source_spec(s: Seq<char>) -> Result<Seq<TokenV>, LexErrV> {
    lex_lines_from(split_lines(s), 0)
}

// ---------------------------------------------------------------------
// The executable lexer.
// ---------------------------------------------------------------------
pub open spec fn state_view(tokens: Seq<Token>, buffer: Seq<char>, kind: TokenType) -> LexState {
    LexState { tokens: tokens_view(tokens), buffer, kind }
}

/// Ends the token being built, if any.
fn terminate_token(tokens: &mut Vec<Token>, buffer: &mut Vec<char>, token_type: &mut TokenType)
    ensures
        state_view(final(tokens)@, final(buffer)@, *final(token_type)) == lex_terminate(
            state_view(old(tokens)@, old(buffer)@, *old(token_type)),
        ),
{
    if buffer.len() == 0 {
        return;
    }
    let text = string_of(buffer);
    let final_type = if *token_type == TokenType::Symbol && (str_eq(text.as_str(), "let")
        || str_eq(text.as_str(), "if") || str_eq(text.as_str(), "while") || str_eq(
        text.as_str(),
        "else",
    )) {
        TokenType::Keyword
    } else {
        *token_type
    };
    let ghost pre = tokens@;
    tokens.push(Token { token_type: final_type, contents: text });
    buffer.clear();
    *token_type = TokenType::Blank;
    proof {
        assert(tokens@.drop_last() =~= pre);
        assert(state_view(tokens@, buffer@, *token_type).tokens =~= lex_terminate(
            state_view(pre, old(buffer)@, *old(token_type)),
        ).tokens);
        assert(state_view(tokens@, buffer@, *token_type).buffer =~= lex_terminate(
            state_view(pre, old(buffer)@, *old(token_type)),
        ).buffer);
    }
}

/// Lexes one line of source text.  An error carries the 0-based column
/// of the offending character and the kind being scanned.
#[verifier::loop_isolation(false)]
pub fn lex_line(line: &Vec<char>) -> (r: Result<Vec<Token>, (usize, TokenType)>)
    ensures
        match r {
            Ok(tokens) => lex_line_spec(line@) == Ok::<Seq<TokenV>, (int, TokenType)>(
                tokens_view(tokens@),
            ),
            Err((col, kind)) => col < line@.len() && lex_line_spec(line@) == Err::<
                Seq<TokenV>,
                (int, TokenType),
            >((col as int, kind)),
        },
{
    let mut tokens: Vec<Token> = Vec::new();
    let mut buffer: Vec<char> = Vec::new();
    let mut token_type = TokenType::Blank;
    let mut i: usize = 0;
    while i < line.len()
        invariant
            i <= line@.len(),
            token_type == TokenType::Control ==> buffer@.len() > 0,
            lex_line_spec(line@) == lex_line_from(
                state_view(tokens@, buffer@, token_type),
                line@,
                i as int,
            ),
        decreases line@.len() - i,
    {
        let c = line[i];
        let ghost st = state_view(tokens@, buffer@, token_type);
        if token_type == TokenType::StringLiteral {
            buffer.push(c);
            if c == '"' {
                terminate_token(&mut tokens, &mut buffer, &mut token_type);
            }
            i = i + 1;
            continue ;
        }
        if is_whitespace_char(c) {
            terminate_token(&mut tokens, &mut buffer, &mut token_type);
            i = i + 1;
            continue ;
        }
        let special = is_control(c);
        if token_type != TokenType::Control && special {
            terminate_token(&mut tokens, &mut buffer, &mut token_type);
        }
        let ghost st1 = state_view(tokens@, buffer@, token_type);
        let new_token = token_type == TokenType::Control && !special;
        if token_type == TokenType::Blank || new_token {
            terminate_token(&mut tokens, &mut buffer, &mut token_type);
            buffer.push(c);
            if ascii_alphabetic(c) || c == '_' {
                token_type = TokenType::Symbol;
            } else if ascii_digit(c) {
                token_type = TokenType::Number;
            } else if c == '"' {
                token_type = TokenType::StringLiteral;
            } else if special {
                token_type = TokenType::Control;
                if !(c == '=' || c == '!' || c == '<' || c == '>' || c == '&' || c == '|') {
                    terminate_token(&mut tokens, &mut buffer, &mut token_type);
                }
            }
            proof {
                let spec_st1 = if st.kind != TokenType::Control && is_control_char(c) {
                    lex_terminate(st)
                } else {
                    st
                };
                assert(st1 == spec_st1);
                let st2 = lex_terminate(spec_st1);
                let kind = if is_ascii_alphabetic(c) || c == '_' {
                    TokenType::Symbol
                } else if is_digit(c) {
                    TokenType::Number
                } else if c == '"' {
                    TokenType::StringLiteral
                } else if is_control_char(c) {
                    TokenType::Control
                } else {
                    st2.kind
                };
                let st3 = LexState { tokens: st2.tokens, buffer: st2.buffer.push(c), kind };
                if kind == TokenType::Control && !is_multichar_operator_char(c) {
                    assert(lex_step(st, c) == Ok::<LexState, TokenType>(lex_terminate(st3)));
                    assert(state_view(tokens@, buffer@, token_type) == lex_terminate(st3));
                } else {
                    assert(lex_step(st, c) == Ok::<LexState, TokenType>(st3));
                    assert(state_view(tokens@, buffer@, token_type).tokens =~= st3.tokens);
                    assert(state_view(tokens@, buffer@, token_type).buffer =~= st3.buffer);
                    assert(state_view(tokens@, buffer@, token_type).kind == st3.kind);
                    assert(state_view(tokens@, buffer@, token_type) == st3);
                }
            }
            i = i + 1;
            continue ;
        }
        match token_type {
            TokenType::Symbol => {
                if !ascii_alphanumeric(c) {
                    return Err((i, TokenType::Symbol));
                }
                buffer.push(c);
            },
            TokenType::Number => {
                if !ascii_digit(c) {
                    return Err((i, TokenType::Number));
                }
                buffer.push(c);
            },
            TokenType::Control => {
                if !special {
                    return Err((i, TokenType::Control));
                }
                buffer.push(c);
            },
            _ => {},
        }
        i = i + 1;
    }
    terminate_token(&mut tokens, &mut buffer, &mut token_type);
    Ok(tokens)
}

/// Whether `c` is one of the fixed control characters.
fn is_control(c: char) -> (r: bool)
    ensures
        r == is_control_char(c),
{
    c == '+' || c == '-' || c == '*' || c == '/' || c == '!' || c == '=' || c == '<' || c == '>'
        || c == '(' || c == ')' || c == '{' || c == '}' || c == ';' || c == '&' || c == '|'
}

pub proof fn lemma_tokens_view_concat(a: Seq<Token>, b: Seq<Token>)
    ensures
        tokens_view(a + b) == tokens_view(a) + tokens_view(b),
    decreases b,
{
    if b.len() == 0 {
        assert(a + b =~= a);
        assert(tokens_view(a) + tokens_view(b) =~= tokens_view(a));
    } else {
        lemma_tokens_view_concat(a, b.drop_last());
        assert((a + b).drop_last() =~= a + b.drop_last());
        assert((a + b).last() == b.last());
        assert(tokens_view(a) + tokens_view(b.drop_last()).push(b.last()@) =~= (tokens_view(a)
            + tokens_view(b.drop_last())).push(b.last()@));
    }
}

/// Drops a trailing carriage return, as line splitting does.
fn strip_cr(cur: &mut Vec<char>)
    ensures
        final(cur)@ == strip_carriage_return(old(cur)@),
{
    if cur.len() > 0 {
        let last = cur[cur.len() - 1];
        if last == '\r' {
            cur.pop();
        }
    }
}

/// Moves one line's tokens to the back of the output queue.
fn append_tokens(tokens: &mut VecDeque<Token>, line_tokens: Vec<Token>)
    ensures
        final(tokens)@ == old(tokens)@ + line_tokens@,
    decreases line_tokens@.len(),
{
    let mut rest = line_tokens;
    let mut j: usize = 0;
    proof {
        assert(old(tokens)@ + rest@.subrange(0, 0) =~= old(tokens)@);
    }
    while j < rest.len()
        invariant
            j <= rest@.len(),
            rest@ == line_tokens@,
            tokens@ == old(tokens)@ + rest@.subrange(0, j as int),
        decreases rest@.len() - j,
    {
        let t = Token { token_type: rest[j].token_type, contents: rest[j].contents.clone() };
        proof {
            assert(t == rest@[j as int]);
        }
        tokens.push_back(t);
        proof {
            assert(tokens@ =~= old(tokens)@ + rest@.subrange(0, j + 1 as int));
        }
        j = j + 1;
    }
    proof {
        assert(rest@.subrange(0, rest@.len() as int) =~= rest@);
    }
}

/// Lexes a whole source text into a token sequence, line by line.
#[verifier::loop_isolation(false)]
pub fn lex_from_string(string: String) -> (r: Result<VecDeque<Token>, LexError>)
    ensures
        match r {
            Ok(tokens) => lex_source_spec(string@) == Ok::<Seq<TokenV>, LexErrV>(
                tokens_view(tokens@),
            ),
            Err(e) => lex_source_spec(string@) == Err::<Seq<TokenV>, LexErrV>(e@),
        },
{
    let chars = chars_of(string.as_str());
    let ghost s = string@;
    let ghost all_lines = split_lines(s);
    let mut tokens: VecDeque<Token> = VecDeque::new();
    let mut cur: Vec<char> = Vec::new();
    let ghost mut done: Seq<Seq<char>> = Seq::empty();
    let mut line_index: usize = 0;
    let mut i: usize = 0;
    proof {
        assert(done + split_lines_from(s, 0, cur@) =~= split_lines_from(s, 0, cur@));
    }
    while i < chars.len()
        invariant
            i <= chars@.len(),
            line_index + cur@.len() <= i,
            done.len() == line_index as int,
            all_lines == done + split_lines_from(s, i as int, cur@),
            lex_lines_from(all_lines, 0) == (match lex_lines_from(all_lines, line_index as int) {
                Ok(rest) => Ok::<Seq<TokenV>, LexErrV>(tokens_view(tokens@) + rest),
                Err(e) => Err::<Seq<TokenV>, LexErrV>(e),
            }),
        decreases chars@.len() - i,
    {
        let c = chars[i];
        if c == '\n' {
            let ghost cur0 = cur@;
            strip_cr(&mut cur);
            proof {
                assert(split_lines_from(s, i as int, cur0) == seq![cur@] + split_lines_from(
                    s,
                    i + 1 as int,
                    Seq::empty(),
                ));
                assert(all_lines[line_index as int] == (seq![cur@] + split_lines_from(
                    s,
                    i + 1 as int,
                    Seq::empty(),
                ))[0]);
                assert(all_lines[line_index as int] == cur@);
                assert(line_index < all_lines.len());
            }
            match lex_line(&cur) {
                Ok(line_tokens) => {
                    let ghost pre = tokens@;
                    let ghost ltv = line_tokens@;
                    append_tokens(&mut tokens, line_tokens);
                    proof {
                        lemma_tokens_view_concat(pre, ltv);
                        match lex_lines_from(all_lines, line_index + 1 as int) {
                            Ok(rest) => {
                                assert(tokens_view(pre) + (tokens_view(ltv) + rest)
                                    =~= tokens_view(tokens@) + rest);
                            },
                            Err(e) => {},
                        }
                    }
                },
                Err((col, kind)) => {
                    let e = LexError {
                        ch: cur[col],
                        line: line_index + 1,
                        column: col + 1,
                        scanning: kind,
                    };
                    proof {
                        assert(lex_lines_from(all_lines, line_index as int) == Err::<
                            Seq<TokenV>,
                            LexErrV,
                        >(e@));
                    }
                    return Err(e);
                },
            }
            cur.clear();
            proof {
                done = done.push(all_lines[line_index as int]);
                assert(all_lines =~= done + split_lines_from(s, i + 1 as int, cur@));
            }
            line_index = line_index + 1;
        } else {
            cur.push(c);
        }
        i = i + 1;
    }
    if cur.len() > 0 {
        proof {
            assert(split_lines_from(s, i as int, cur@) == seq![cur@]);
            assert(all_lines[line_index as int] == cur@);
            assert(all_lines.len() == line_index + 1);
        }
        match lex_line(&cur) {
            Ok(line_tokens) => {
                let ghost pre = tokens@;
                let ghost ltv = line_tokens@;
                append_tokens(&mut tokens, line_tokens);
                proof {
                    lemma_tokens_view_concat(pre, ltv);
                    assert(lex_lines_from(all_lines, line_index + 1 as int) == Ok::<
                        Seq<TokenV>,
                        LexErrV,
                    >(Seq::empty()));
                    assert(tokens_view(pre) + (tokens_view(ltv) + Seq::<TokenV>::empty())
                        =~= tokens_view(tokens@));
                }
            },
            Err((col, kind)) => {
                let e = LexError {
                    ch: cur[col],
                    line: line_index + 1,
                    column: col + 1,
                    scanning: kind,
                };
                proof {
                    assert(lex_lines_from(all_lines, line_index as int) == Err::<
                        Seq<TokenV>,
                        LexErrV,
                    >(e@));
                }
                return Err(e);
            },
        }
    } else {
        proof {
            assert(split_lines_from(s, i as int, cur@) =~= Seq::<Seq<char>>::empty());
            assert(all_lines =~= done);
            assert(lex_lines_from(all_lines, line_index as int) == Ok::<Seq<TokenV>, LexErrV>(
                Seq::empty(),
            ));
            assert(tokens_view(tokens@) + Seq::<TokenV>::empty() =~= tokens_view(tokens@));
        }
    }
    Ok(tokens)
}

} // verus!
