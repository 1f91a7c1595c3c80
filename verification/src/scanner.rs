//! An on-demand scanner over raw source text: each call to `next`
//! skips whitespace and line comments, then hands back one token with
//! the 1-based line it started on.

use crate::text::{
    ascii_alphanumeric, ascii_digit, char_is_alphabetic, chars_of, is_alphabetic_char,
    is_ascii_alphanumeric, is_digit, str_eq, string_of,
};
use vstd::prelude::*;
use vstd::string::StringExecFns;

verus! {

#[derive(Debug, PartialEq, Eq, Structural, Copy, Clone)]
pub enum TokenType {
    TokenLeftParen,
    TokenRightParen,
    TokenLeftBrace,
    TokenRightBrace,
    TokenComma,
    TokenDot,
    TokenMinus,
    TokenPlus,
    TokenSemicolon,
    TokenSlash,
    TokenAsterisk,
    TokenBang,
    TokenBangEqual,
    TokenEqual,
    TokenEqualEqual,
    TokenLess,
    TokenLessEqual,
    TokenGreater,
    TokenGreaterEqual,
    TokenAmpAmp,
    TokenPipePipe,
    TokenIdentifier,
    TokenString,
    TokenNumber,
    TokenElse,
    TokenFalse,
    TokenFun,
    TokenLet,
    TokenNil,
    TokenIf,
    TokenRepeat,
    TokenReturn,
    TokenTrue,
    TokenWhile,
    EOF,
    ScannerError,
}

#[derive(Debug, PartialEq, Clone)]
pub struct Token {
    pub string: String,
    pub token_type: TokenType,
    pub line: usize,
}

/// What one scan yields: the token's kind, text and line, and the
/// position scanning continues from.
pub struct ScanV {
    pub token_type: TokenType,
    pub text: Seq<char>,
    pub line: int,
    pub pos: int,
}

/// The position right after a line comment: the next newline, or the
/// end of the source.
pub open spec fn comment_end(src: Seq<char>, i: int) -> int
    decreases src.len() - i,
{
    if i < 0 || i >= src.len() {
        i
    } else if src[i] == '\n' {
        i
    } else {
        comment_end(src, i + 1)
    }
}

/// The position right after a run of identifier characters.
pub open spec fn ident_end(src: Seq<char>, i: int) -> int
    decreases src.len() - i,
{
    if i < 0 || i >= src.len() {
        i
    } else if is_ascii_alphanumeric(src[i]) || src[i] == '_' {
        ident_end(src, i + 1)
    } else {
        i
    }
}

/// The position right after a run of decimal digits.
pub open spec fn digits_end(src: Seq<char>, i: int) -> int
    decreases src.len() - i,
{
    if i < 0 || i >= src.len() {
        i
    } else if is_digit(src[i]) {
        digits_end(src, i + 1)
    } else {
        i
    }
}

/// Scans to the closing quote of a string literal, counting the lines
/// crossed; yields the position of the closing quote (or the end of the
/// source) and the updated line.
pub open spec fn string_scan(src: Seq<char>, i: int, line: int) -> (int, int)
    decreases src.len() - i,
{
    if i < 0 || i >= src.len() {
        (i, line)
    } else if src[i] == '"' {
        (i, line)
    } else {
        string_scan(src, i + 1, if src[i] == '\n' {
            line + 1
        } else {
            line
        })
    }
}

/// The keyword denoted by an identifier's text, if any.
pub open spec fn identifier_type_spec(text: Seq<char>) -> TokenType {
    if text == "else"@ {
        TokenType::TokenElse
    } else if text == "false"@ {
        TokenType::TokenFalse
    } else if text == "fun"@ {
        TokenType::TokenFun
    } else if text == "let"@ {
        TokenType::TokenLet
    } else if text == "nil"@ {
        TokenType::TokenNil
    } else if text == "if"@ {
        TokenType::TokenIf
    } else if text == "repeat"@ {
        TokenType::TokenRepeat
    } else if text == "return"@ {
        TokenType::TokenReturn
    } else if text == "true"@ {
        TokenType::TokenTrue
    } else if text == "while"@ {
        TokenType::TokenWhile
    } else {
        TokenType::TokenIdentifier
    }
}

/// One token scanned at `pos`, after whitespace and comments.
pub open spec fn scan_token(src: Seq<char>, pos: int, line: int) -> ScanV {
    let c = src[pos];
    if char_is_alphabetic(c) || c == '_' {
        let end = ident_end(src, pos + 1);
        let text = src.subrange(pos, end);
        ScanV { token_type: identifier_type_spec(text), text, line, pos: end }
    } else if is_digit(c) {
        let e1 = digits_end(src, pos + 1);
        let end = if e1 < src.len() && src[e1] == '.' {
            digits_end(src, e1 + 1)
        } else {
            e1
        };
        ScanV { token_type: TokenType::TokenNumber, text: src.subrange(pos, end), line, pos: end }
    } else if c == '(' {
        simple_token(src, pos, line, TokenType::TokenLeftParen)
    } else if c == ')' {
        simple_token(src, pos, line, TokenType::TokenRightParen)
    } else if c == '{' {
        simple_token(src, pos, line, TokenType::TokenLeftBrace)
    } else if c == '}' {
        simple_token(src, pos, line, TokenType::TokenRightBrace)
    } else if c == ';' {
        simple_token(src, pos, line, TokenType::TokenSemicolon)
    } else if c == ',' {
        simple_token(src, pos, line, TokenType::TokenComma)
    } else if c == '.' {
        simple_token(src, pos, line, TokenType::TokenDot)
    } else if c == '-' {
        simple_token(src, pos, line, TokenType::TokenMinus)
    } else if c == '+' {
        simple_token(src, pos, line, TokenType::TokenPlus)
    } else if c == '/' {
        simple_token(src, pos, line, TokenType::TokenSlash)
    } else if c == '*' {
        simple_token(src, pos, line, TokenType::TokenAsterisk)
    } else if c == '!' {
        two_char_token(src, pos, line, TokenType::TokenBang, TokenType::TokenBangEqual)
    } else if c == '=' {
        two_char_token(src, pos, line, TokenType::TokenEqual, TokenType::TokenEqualEqual)
    } else if c == '<' {
        two_char_token(src, pos, line, TokenType::TokenLess, TokenType::TokenLessEqual)
    } else if c == '>' {
        two_char_token(src, pos, line, TokenType::TokenGreater, TokenType::TokenGreaterEqual)
    } else if c == '&' {
        if pos + 1 < src.len() && src[pos + 1] == '&' {
            ScanV {
                token_type: TokenType::TokenAmpAmp,
                text: src.subrange(pos, pos + 2),
                line,
                pos: pos + 2,
            }
        } else {
            ScanV {
                token_type: TokenType::ScannerError,
                text: "Unexpected lone &"@,
                line,
                pos: pos + 1,
            }
        }
    } else if c == '|' {
        if pos + 1 < src.len() && src[pos + 1] == '|' {
            ScanV {
                token_type: TokenType::TokenPipePipe,
                text: src.subrange(pos, pos + 2),
                line,
                pos: pos + 2,
            }
        } else {
            ScanV {
                token_type: TokenType::ScannerError,
                text: "Unexpected |"@,
                line,
                pos: pos + 1,
            }
        }
    } else if c == '"' {
        let scanned = string_scan(src, pos + 1, line);
        if scanned.0 >= src.len() {
            ScanV {
                token_type: TokenType::ScannerError,
                text: "Unterminated string literal"@,
                line: scanned.1,
                pos: scanned.0,
            }
        } else {
            ScanV {
                token_type: TokenType::TokenString,
                text: src.subrange(pos, scanned.0 + 1),
                line: scanned.1,
                pos: scanned.0 + 1,
            }
        }
    } else {
        ScanV {
            token_type: TokenType::ScannerError,
            text: "Unexpected character"@,
            line,
            pos: pos + 1,
        }
    }
}

pub open spec fn simple_token(src: Seq<char>, pos: int, line: int, tt: TokenType) -> ScanV {
    ScanV { token_type: tt, text: src.subrange(pos, pos + 1), line, pos: pos + 1 }
}

/// A one- or two-character token: the longer form when an `=` follows.
pub open spec fn two_char_token(
    src: Seq<char>,
    pos: int,
    line: int,
    short: TokenType,
    long: TokenType,
) -> ScanV {
    if pos + 1 < src.len() && src[pos + 1] == '=' {
        ScanV { token_type: long, text: src.subrange(pos, pos + 2), line, pos: pos + 2 }
    } else {
        ScanV { token_type: short, text: src.subrange(pos, pos + 1), line, pos: pos + 1 }
    }
}

/// What scanning from a given position yields, after skipping
/// whitespace and line comments.
pub open spec fn scan_next(src: Seq<char>, pos: int, line: int) -> ScanV
    decreases src.len() - pos,
{
    if pos < 0 || pos >= src.len() {
        ScanV { token_type: TokenType::EOF, text: Seq::empty(), line, pos }
    } else {
        let c = src[pos];
        if c == ' ' || c == '\r' || c == '\t' {
            scan_next(src, pos + 1, line)
        } else if c == '\n' {
            scan_next(src, pos + 1, line + 1)
        } else if c == '/' && pos + 1 < src.len() && src[pos + 1] == '/' {
            let after = comment_end(src, pos + 1);
            if pos < after <= src.len() {
                scan_next(src, after, line)
            } else {
                ScanV { token_type: TokenType::EOF, text: Seq::empty(), line, pos }
            }
        } else {
            scan_token(src, pos, line)
        }
    }
}

pub struct Scanner {
    source: Vec<char>,
    current_token_start: usize,
    current_token_end: usize,
    line: usize,
}

impl Scanner {
    /// The characters being scanned.
    pub closed spec fn src(&self) -> Seq<char> {
        self.source@
    }

    /// The position scanning continues from.
    pub closed spec fn pos(&self) -> int {
        self.current_token_end as int
    }

    /// The current 1-based line.
    pub closed spec fn line_no(&self) -> int {
        self.line as int
    }

    pub closed spec fn wf(&self) -> bool {
        &&& self.current_token_start <= self.current_token_end <= self.source@.len()
        &&& self.line >= 1
    }

    /// A scanner at the start of the source, on line one.
    pub fn new(source: &str) -> (s: Scanner)
        ensures
            s.wf(),
            s.src() == source@,
            s.pos() == 0,
            s.line_no() == 1,
    {
        Scanner {
            source: chars_of(source),
            current_token_start: 0,
            current_token_end: 0,
            line: 1,
        }
    }

    /// Skips whitespace and line comments.  Scanning continues at the
    /// first character of the next token, or at the end of the source.
    #[verifier::loop_isolation(false)]
    fn skip_blanks(&mut self)
        requires
            old(self).wf(),
            old(self).line_no() + old(self).src().len() - old(self).pos() < usize::MAX,
        ensures
            final(self).wf(),
            final(self).src() == old(self).src(),
            final(self).line_no() + final(self).src().len() - final(self).pos() < usize::MAX,
            scan_next(old(self).src(), old(self).pos(), old(self).line_no()) == scan_next(
                final(self).src(),
                final(self).pos(),
                final(self).line_no(),
            ),
            final(self).pos() == final(self).src().len() || ({
                let c = final(self).src()[final(self).pos()];
                &&& c != ' ' && c != '\r' && c != '\t' && c != '\n'
                &&& !(c == '/' && final(self).pos() + 1 < final(self).src().len()
                    && final(self).src()[final(self).pos() + 1] == '/')
            }),
    {
        let ghost src = self.source@;
        loop
            invariant
                self.wf(),
                self.source@ == src,
                self.line + src.len() - self.current_token_end < usize::MAX,
                scan_next(src, old(self).pos(), old(self).line_no()) == scan_next(
                    src,
                    self.current_token_end as int,
                    self.line as int,
                ),
            decreases src.len() - self.current_token_end,
        {
            if self.is_at_end() {
                return ;
            }
            let c = self.peek();
            if c == ' ' || c == '\r' || c == '\t' {
                self.advance();
            } else if c == '\n' {
                self.line = self.line + 1;
                self.advance();
            } else if c == '/' {
                if self.peek_next() == Some('/') {
                    proof {
                        lemma_comment_end_bounds(src, self.pos() + 1);
                    }
                    self.skip_until_line_end();
                } else {
                    return ;
                }
            } else {
                return ;
            }
        }
    }

    /// Scans the next token.  The scanner's position and line advance
    /// exactly as the mathematical scan describes.
    #[verifier::rlimit(50)]
    pub fn next(&mut self) -> (r: Token)
        requires
            old(self).wf(),
            old(self).line_no() + old(self).src().len() - old(self).pos() < usize::MAX,
        ensures
            final(self).wf(),
            final(self).src() == old(self).src(),
            ({
                let sv = scan_next(old(self).src(), old(self).pos(), old(self).line_no());
                &&& r.token_type == sv.token_type
                &&& r.string@ == sv.text
                &&& r.line as int == sv.line
                &&& final(self).pos() == sv.pos
                &&& final(self).line_no() == sv.line
            }),
    {
        self.skip_blanks();
        if self.is_at_end() {
            return Token { string: String::new(), token_type: TokenType::EOF, line: self.line };
        }
        self.current_token_start = self.current_token_end;
        let c = self.peek();
        self.advance();
        if is_alphabetic_char(c) || c == '_' {
            return self.identifier();
        }
        if crate::text::ascii_digit(c) {
            return self.number_literal();
        }
        if c == '(' {
            return self.make_token(TokenType::TokenLeftParen);
        }
        if c == ')' {
            return self.make_token(TokenType::TokenRightParen);
        }
        if c == '{' {
            return self.make_token(TokenType::TokenLeftBrace);
        }
        if c == '}' {
            return self.make_token(TokenType::TokenRightBrace);
        }
        if c == ';' {
            return self.make_token(TokenType::TokenSemicolon);
        }
        if c == ',' {
            return self.make_token(TokenType::TokenComma);
        }
        if c == '.' {
            return self.make_token(TokenType::TokenDot);
        }
        if c == '-' {
            return self.make_token(TokenType::TokenMinus);
        }
        if c == '+' {
            return self.make_token(TokenType::TokenPlus);
        }
        if c == '/' {
            return self.make_token(TokenType::TokenSlash);
        }
        if c == '*' {
            return self.make_token(TokenType::TokenAsterisk);
        }
        if c == '!' {
            return if self.match_next('=') {
                self.make_token(TokenType::TokenBangEqual)
            } else {
                self.make_token(TokenType::TokenBang)
            };
        }
        if c == '=' {
            return if self.match_next('=') {
                self.make_token(TokenType::TokenEqualEqual)
            } else {
                self.make_token(TokenType::TokenEqual)
            };
        }
        if c == '<' {
            return if self.match_next('=') {
                self.make_token(TokenType::TokenLessEqual)
            } else {
                self.make_token(TokenType::TokenLess)
            };
        }
        if c == '>' {
            return if self.match_next('=') {
                self.make_token(TokenType::TokenGreaterEqual)
            } else {
                self.make_token(TokenType::TokenGreater)
            };
        }
        if c == '&' {
            return if self.match_next('&') {
                self.make_token(TokenType::TokenAmpAmp)
            } else {
                self.make_error("Unexpected lone &")
            };
        }
        if c == '|' {
            return if self.match_next('|') {
                self.make_token(TokenType::TokenPipePipe)
            } else {
                self.make_error("Unexpected |")
            };
        }
        if c == '"' {
            return self.string_literal();
        }
        self.make_error("Unexpected character")
    }

    fn peek(&self) -> (c: char)
        requires
            self.wf(),
            self.pos() < self.src().len(),
        ensures
            c == self.src()[self.pos()],
    {
        self.source[self.current_token_end]
    }

    fn peek_next(&self) -> (c: Option<char>)
        requires
            self.wf(),
        ensures
            c == (if self.pos() + 1 < self.src().len() {
                Some(self.src()[self.pos() + 1])
            } else {
                None::<char>
            }),
    {
        let n = self.source.len();
        if n - self.current_token_end <= 1 {
            None
        } else {
            Some(self.source[self.current_token_end + 1])
        }
    }

    /// Skips a line comment: scanning continues at the newline that
    /// ends it, or at the end of the source.
    fn skip_until_line_end(&mut self)
        requires
            old(self).wf(),
            old(self).pos() < old(self).src().len(),
        ensures
            final(self).wf(),
            final(self).src() == old(self).src(),
            final(self).line_no() == old(self).line_no(),
            final(self).current_start() == old(self).current_start(),
            final(self).pos() == comment_end(old(self).src(), old(self).pos() + 1),
            final(self).pos() > old(self).pos(),
    {
        self.advance();
        loop
            invariant
                self.wf(),
                self.source@ == old(self).source@,
                self.line == old(self).line,
                self.current_token_start == old(self).current_token_start,
                old(self).pos() < self.pos() <= self.src().len(),
                comment_end(old(self).src(), old(self).pos() + 1) == comment_end(
                    self.src(),
                    self.pos(),
                ),
            decreases self.src().len() - self.pos(),
        {
            if self.is_at_end() {
                return ;
            }
            if self.peek() == '\n' {
                return ;
            }
            self.advance();
        }
    }

    pub closed spec fn current_start(&self) -> int {
        self.current_token_start as int
    }

    fn advance(&mut self)
        requires
            old(self).wf(),
            old(self).pos() < old(self).src().len(),
        ensures
            final(self).wf(),
            final(self).src() == old(self).src(),
            final(self).line_no() == old(self).line_no(),
            final(self).current_start() == old(self).current_start(),
            final(self).pos() == old(self).pos() + 1,
    {
        let n = self.source.len();
        proof {
            assert(self.current_token_end < n);
        }
        self.current_token_end = self.current_token_end + 1;
    }

    fn match_next(&mut self, expected: char) -> (r: bool)
        requires
            old(self).wf(),
        ensures
            final(self).wf(),
            final(self).src() == old(self).src(),
            final(self).line_no() == old(self).line_no(),
            final(self).current_start() == old(self).current_start(),
            r == (old(self).pos() < old(self).src().len() && old(self).src()[old(self).pos()]
                == expected),
            final(self).pos() == (if r {
                old(self).pos() + 1
            } else {
                old(self).pos()
            }),
    {
        if self.is_at_end() {
            return false;
        }
        if self.source[self.current_token_end] != expected {
            return false;
        }
        self.advance();
        true
    }

    fn is_at_end(&self) -> (r: bool)
        requires
            self.wf(),
        ensures
            r == (self.pos() == self.src().len()),
    {
        self.source.len() == self.current_token_end
    }

    /// Scans to the closing quote, counting crossed lines; an
    /// unterminated literal is an error token.
    #[verifier::loop_isolation(false)]
    fn string_literal(&mut self) -> (r: Token)
        requires
            old(self).wf(),
            old(self).line_no() >= 1,
            old(self).line_no() + old(self).src().len() - old(self).pos() < usize::MAX,
        ensures
            final(self).wf(),
            final(self).src() == old(self).src(),
            ({
                let scanned = string_scan(old(self).src(), old(self).pos(), old(self).line_no());
                &&& final(self).line_no() == scanned.1
                &&& if scanned.0 >= old(self).src().len() {
                    &&& r.token_type == TokenType::ScannerError
                    &&& r.string@ == "Unterminated string literal"@
                    &&& r.line as int == scanned.1
                    &&& final(self).pos() == scanned.0
                } else {
                    &&& r.token_type == TokenType::TokenString
                    &&& r.string@ == old(self).src().subrange(
                        final(self).current_start(),
                        scanned.0 + 1,
                    )
                    &&& final(self).current_start() == old(self).current_start()
                    &&& r.line as int == scanned.1
                    &&& final(self).pos() == scanned.0 + 1
                }
            }),
    {
        loop
            invariant
                self.wf(),
                self.source@ == old(self).source@,
                self.current_token_start == old(self).current_token_start,
                self.pos() >= old(self).pos(),
                self.line + self.src().len() - self.pos() < usize::MAX,
                self.line >= 1,
                string_scan(old(self).src(), old(self).pos(), old(self).line_no()) == string_scan(
                    self.src(),
                    self.pos(),
                    self.line_no(),
                ),
            decreases self.src().len() - self.pos(),
        {
            if self.is_at_end() {
                break ;
            }
            if self.peek() == '"' {
                break ;
            }
            if self.peek() == '\n' {
                self.line = self.line + 1;
            }
            self.advance();
        }
        if self.is_at_end() {
            return self.make_error("Unterminated string literal");
        }
        self.advance();
        self.make_token(TokenType::TokenString)
    }

    /// Scans the rest of an identifier and classifies keywords.
    #[verifier::loop_isolation(false)]
    fn identifier(&mut self) -> (r: Token)
        requires
            old(self).wf(),
        ensures
            final(self).wf(),
            final(self).src() == old(self).src(),
            final(self).line_no() == old(self).line_no(),
            final(self).current_start() == old(self).current_start(),
            final(self).pos() == ident_end(old(self).src(), old(self).pos()),
            r.token_type == identifier_type_spec(
                old(self).src().subrange(old(self).current_start(), final(self).pos()),
            ),
            r.string@ == old(self).src().subrange(old(self).current_start(), final(self).pos()),
            r.line as int == old(self).line_no(),
    {
        loop
            invariant
                self.wf(),
                self.source@ == old(self).source@,
                self.line == old(self).line,
                self.current_token_start == old(self).current_token_start,
                self.pos() >= old(self).pos(),
                ident_end(old(self).src(), old(self).pos()) == ident_end(self.src(), self.pos()),
            decreases self.src().len() - self.pos(),
        {
            if self.is_at_end() {
                break ;
            }
            let c = self.peek();
            if !(ascii_alphanumeric(c) || c == '_') {
                break ;
            }
            self.advance();
        }
        let text = self.get_current_string();
        let token_type = identifier_type(text.as_str());
        Token { string: text, token_type, line: self.line }
    }

    /// Scans the rest of a number literal: a digit run, and optionally
    /// a dot followed by another digit run.
    #[verifier::loop_isolation(false)]
    fn number_literal(&mut self) -> (r: Token)
        requires
            old(self).wf(),
        ensures
            final(self).wf(),
            final(self).src() == old(self).src(),
            final(self).line_no() == old(self).line_no(),
            final(self).current_start() == old(self).current_start(),
            ({
                let e1 = digits_end(old(self).src(), old(self).pos());
                let end = if e1 < old(self).src().len() && old(self).src()[e1] == '.' {
                    digits_end(old(self).src(), e1 + 1)
                } else {
                    e1
                };
                &&& final(self).pos() == end
                &&& r.token_type == TokenType::TokenNumber
                &&& r.string@ == old(self).src().subrange(old(self).current_start(), end)
                &&& r.line as int == old(self).line_no()
            }),
    {
        loop
            invariant
                self.wf(),
                self.source@ == old(self).source@,
                self.line == old(self).line,
                self.current_token_start == old(self).current_token_start,
                self.pos() >= old(self).pos(),
                digits_end(old(self).src(), old(self).pos()) == digits_end(
                    self.src(),
                    self.pos(),
                ),
            decreases self.src().len() - self.pos(),
        {
            if self.is_at_end() {
                break ;
            }
            if !crate::text::ascii_digit(self.peek()) {
                break ;
            }
            self.advance();
        }
        let ghost e1 = self.pos();
        if !self.is_at_end() && self.peek() == '.' {
            self.advance();
            loop
                invariant
                    self.wf(),
                    self.source@ == old(self).source@,
                    self.line == old(self).line,
                    self.current_token_start == old(self).current_token_start,
                    self.pos() >= e1 + 1,
                    digits_end(old(self).src(), e1 + 1) == digits_end(self.src(), self.pos()),
                decreases self.src().len() - self.pos(),
            {
                if self.is_at_end() {
                    break ;
                }
                if !crate::text::ascii_digit(self.peek()) {
                    break ;
                }
                self.advance();
            }
        }
        self.make_token(TokenType::TokenNumber)
    }

    /// A token whose text is the slice scanned so far.
    fn make_token(&self, token_type: TokenType) -> (r: Token)
        requires
            self.wf(),
        ensures
            r.token_type == token_type,
            r.string@ == self.src().subrange(self.current_start(), self.pos()),
            r.line as int == self.line_no(),
    {
        Token { string: self.get_current_string(), token_type, line: self.line }
    }

    /// An error token carrying its message as the text.
    fn make_error(&self, message: &str) -> (r: Token)
        ensures
            r.token_type == TokenType::ScannerError,
            r.string@ == message@,
            r.line as int == self.line_no(),
    {
        Token {
            string: String::from_str(message),
            token_type: TokenType::ScannerError,
            line: self.line,
        }
    }

    /// The text scanned so far.
    fn get_current_string(&self) -> (r: String)
        requires
            self.wf(),
        ensures
            r@ == self.src().subrange(self.current_start(), self.pos()),
    {
        let mut chars: Vec<char> = Vec::new();
        let mut i: usize = self.current_token_start;
        while i < self.current_token_end
            invariant
                self.current_token_start <= i <= self.current_token_end,
                self.wf(),
                chars@ == self.src().subrange(self.current_start(), i as int),
            decreases self.current_token_end - i,
        {
            let c = self.source[i];
            chars.push(c);
            proof {
                assert(chars@ =~= self.src().subrange(self.current_start(), i + 1 as int));
            }
            i = i + 1;
        }
        string_of(&chars)
    }
}

/// The keyword denoted by an identifier's text, if any.
fn identifier_type(text: &str) -> (r: TokenType)
    ensures
        r == identifier_type_spec(text@),
{
    if str_eq(text, "else") {
        TokenType::TokenElse
    } else if str_eq(text, "false") {
        TokenType::TokenFalse
    } else if str_eq(text, "fun") {
        TokenType::TokenFun
    } else if str_eq(text, "let") {
        TokenType::TokenLet
    } else if str_eq(text, "nil") {
        TokenType::TokenNil
    } else if str_eq(text, "if") {
        TokenType::TokenIf
    } else if str_eq(text, "repeat") {
        TokenType::TokenRepeat
    } else if str_eq(text, "return") {
        TokenType::TokenReturn
    } else if str_eq(text, "true") {
        TokenType::TokenTrue
    } else if str_eq(text, "while") {
        TokenType::TokenWhile
    } else {
        TokenType::TokenIdentifier
    }
}

/// A line comment ends at or after where it starts, within the source.
pub proof fn lemma_comment_end_bounds(src: Seq<char>, i: int)
    requires
        0 <= i <= src.len(),
    ensures
        i <= comment_end(src, i) <= src.len(),
    decreases src.len() - i,
{
    if i < src.len() && src[i] != '\n' {
        lemma_comment_end_bounds(src, i + 1);
    }
}

} // verus!
