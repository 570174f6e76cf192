//! The scanner: the verified source-to-tokens transformation.

use vstd::prelude::*;
use vstd::string::StrSliceExecFns;

use crate::model::char_at;
use crate::model::is_alpha;
use crate::model::is_digit;
use crate::model::is_ident_cont;
use crate::model::keyword_of;
use crate::token::LexError;
use crate::token::SpecError;
use crate::token::SpecToken;
use crate::token::Token;
use crate::token::TokenKind;

verus! {

/// Whether `c` is an ASCII decimal digit.
fn is_digit_char(c: char) -> (r: bool)
    ensures
        r == is_digit(c),
{
    '0' <= c && c <= '9'
}

/// Whether `c` is an ASCII letter.
fn is_alpha_char(c: char) -> (r: bool)
    ensures
        r == is_alpha(c),
{
    ('a' <= c && c <= 'z') || ('A' <= c && c <= 'Z')
}

/// Whether `c` may continue an identifier.
fn is_ident_cont_char(c: char) -> (r: bool)
    ensures
        r == is_ident_cont(c),
{
    is_alpha_char(c) || is_digit_char(c) || c == '_'
}

/// The model of a token list: each token replaced by its model.
pub open spec fn tokens_view(ts: Seq<Token>) -> Seq<SpecToken> {
    ts.map_values(|t: Token| t@)
}

/// The model of an error list: each error replaced by its model.
pub open spec fn errors_view(es: Seq<LexError>) -> Seq<SpecError> {
    es.map_values(|e: LexError| e@)
}

proof fn lemma_tokens_view_push(ts: Seq<Token>, t: Token)
    ensures
        tokens_view(ts.push(t)) == tokens_view(ts).push(t@),
{
    assert(tokens_view(ts.push(t)) =~= tokens_view(ts).push(t@));
}

proof fn lemma_errors_view_push(es: Seq<LexError>, e: LexError)
    ensures
        errors_view(es.push(e)) == errors_view(es).push(e@),
{
    assert(errors_view(es.push(e)) =~= errors_view(es).push(e@));
}

/// The model of a scanner's state: the source text as a character sequence,
/// the two cursors and the line counter as mathematical integers, and the
/// models of the tokens and errors accumulated so far.
pub struct SpecScanner {
    pub code: Seq<char>,
    pub start: int,
    pub curr: int,
    pub line: int,
    pub tokens: Seq<SpecToken>,
    pub errors: Seq<SpecError>,
}

/// The scanner. It owns the source text for the duration of one scan,
/// walks it with a start-of-lexeme cursor and a current-position cursor
/// (both counted in characters), tracks the current 0-based line, and
/// accumulates tokens and lexical errors in source order.
pub struct Scanner {
    code: String,
    start: usize,
    curr: usize,
    line: usize,
    tokens: Vec<Token>,
    errors: Vec<LexError>,
}

impl View for Scanner {
    type V = SpecScanner;

    closed spec fn view(&self) -> SpecScanner {
        SpecScanner {
            code: self.code@,
            start: self.start as int,
            curr: self.curr as int,
            line: self.line as int,
            tokens: tokens_view(self.tokens@),
            errors: errors_view(self.errors@),
        }
    }
}

impl Scanner {
    /// Well-formedness of the scanner state: the cursors stay within the
    /// text and in order, the character count fits a machine word, and the
    /// 0-based line counter cannot exceed the characters consumed (a line
    /// only grows when a newline character is consumed).
    pub open spec fn wf(&self) -> bool {
        &&& self@.code.len() <= usize::MAX
        &&& 0 <= self@.start <= self@.curr <= self@.code.len()
        &&& 0 <= self@.line <= self@.curr
    }

    /// Creates a scanner over `code`, with both cursors at the first
    /// character, the line counter at 0, and nothing produced yet.
    pub fn new(code: String) -> (s: Scanner)
        ensures
            s.wf(),
            s@.code == code@,
            s@.start == 0,
            s@.curr == 0,
            s@.line == 0,
            s@.tokens == Seq::<SpecToken>::empty(),
            s@.errors == Seq::<SpecError>::empty(),
    {
        let _chars: usize = code.as_str().unicode_len();
        let s = Scanner {
            code,
            start: 0,
            curr: 0,
            line: 0,
            tokens: Vec::new(),
            errors: Vec::new(),
        };
        proof {
            assert(tokens_view(s.tokens@) =~= Seq::<SpecToken>::empty());
            assert(errors_view(s.errors@) =~= Seq::<SpecError>::empty());
        }
        s
    }

    /// Whether the current cursor has reached the end of the text.
    fn at_end(&self) -> (r: bool)
        ensures
            r == (self@.curr >= self@.code.len()),
    {
        self.code.as_str().unicode_len() <= self.curr
    }

    /// The character at the current cursor, or the null sentinel at the end
    /// of the text. Read-only: the cursor does not move.
    fn peek(&self) -> (c: char)
        requires
            self.wf(),
        ensures
            c == char_at(self@.code, self@.curr),
    {
        if self.at_end() {
            '\0'
        } else {
            self.code.as_str().get_char(self.curr)
        }
    }

    /// The character just after the current cursor, or the null sentinel if
    /// that position is at or past the end. Read-only.
    fn peek_next(&self) -> (c: char)
        requires
            self.wf(),
        ensures
            c == char_at(self@.code, self@.curr + 1),
    {
        if self.at_end() {
            '\0'
        } else {
            let n = self.code.as_str().unicode_len();
            if self.curr + 1 >= n {
                '\0'
            } else {
                self.code.as_str().get_char(self.curr + 1)
            }
        }
    }

    /// Moves the current cursor one character forward.
    fn advance(&mut self)
        requires
            old(self).wf(),
            old(self)@.curr < old(self)@.code.len(),
        ensures
            final(self)@ == (SpecScanner { curr: old(self)@.curr + 1, ..old(self)@ }),
    {
        self.curr = self.curr + 1;
    }

    /// Appends a token of kind `kind` whose lexeme spans the characters
    /// from the start-of-lexeme cursor to the current cursor, carrying the
    /// current line.
    fn create_token(&mut self, kind: TokenKind)
        requires
            old(self).wf(),
        ensures
            final(self)@ == (SpecScanner {
                tokens: old(self)@.tokens.push(
                    SpecToken {
                        kind: kind@,
                        lexeme: old(self)@.code.subrange(old(self)@.start, old(self)@.curr),
                        line: old(self)@.line,
                    },
                ),
                ..old(self)@
            }),
    {
        let lexeme: String = self.code.as_str().substring_char(self.start, self.curr).to_owned();
        let line: usize = self.line;
        let tok = Token::new(kind, lexeme, line);
        self.tokens.push(tok);
        proof {
            lemma_tokens_view_push(old(self).tokens@, tok);
        }
    }

    /// The keyword kind spelled exactly `keyword`, if there is one.
    fn get_keyword(keyword: &str) -> (r: Option<TokenKind>)
        ensures
            r matches Some(k) ==> keyword_of(keyword@) == Some(k@),
            r is None ==> keyword_of(keyword@) is None,
    {
        let s: String = keyword.to_owned();
        if s == "and".to_owned() {
            Some(TokenKind::And)
        } else if s == "class".to_owned() {
            Some(TokenKind::Class)
        } else if s == "else".to_owned() {
            Some(TokenKind::Else)
        } else if s == "false".to_owned() {
            Some(TokenKind::False)
        } else if s == "for".to_owned() {
            Some(TokenKind::For)
        } else if s == "fun".to_owned() {
            Some(TokenKind::Fun)
        } else if s == "if".to_owned() {
            Some(TokenKind::If)
        } else if s == "nil".to_owned() {
            Some(TokenKind::Nil)
        } else if s == "or".to_owned() {
            Some(TokenKind::Or)
        } else if s == "print".to_owned() {
            Some(TokenKind::Print)
        } else if s == "return".to_owned() {
            Some(TokenKind::Return)
        } else if s == "super".to_owned() {
            Some(TokenKind::Super)
        } else if s == "this".to_owned() {
            Some(TokenKind::This)
        } else if s == "true".to_owned() {
            Some(TokenKind::True)
        } else if s == "var".to_owned() {
            Some(TokenKind::Var)
        } else if s == "while".to_owned() {
            Some(TokenKind::While)
        } else {
            None
        }
    }

    /// Scans the rest of a string literal whose opening quote, at the
    /// start-of-lexeme cursor, has just been consumed: consumes its body up
    /// to and including the closing quote, counting newlines into the line,
    /// and appends the string token; or records an unterminated-string
    /// error when the input ends first.
    fn string(&mut self)
        requires
            old(self).wf(),
            old(self)@.line <= old(self)@.start,
            old(self)@.start < old(self)@.code.len(),
            old(self)@.curr == old(self)@.start + 1,
            old(self)@.code[old(self)@.start] == '"',
        ensures
            final(self).wf(),
            ({
                let st = crate::model::string_step(
                    old(self)@.code,
                    old(self)@.start,
                    old(self)@.line,
                );
                final(self)@ == (SpecScanner {
                    curr: st.next,
                    line: st.line,
                    tokens: match st.tok {
                        Some(t) => old(self)@.tokens.push(t),
                        None => old(self)@.tokens,
                    },
                    errors: match st.err {
                        Some(e) => old(self)@.errors.push(e),
                        None => old(self)@.errors,
                    },
                    ..old(self)@
                })
            }),
    {
        let ghost s = self.code@;
        let ghost start0 = self@.start;
        let ghost line0 = self@.line;
        let ghost close = crate::model::string_body_end(s, start0 + 1);
        proof {
            crate::model::lemma_string_body_end(s, start0 + 1);
        }
        while self.peek() != '"' && !self.at_end()
            invariant
                self.wf(),
                self@.code == s,
                self@.start == start0,
                self@.tokens == old(self)@.tokens,
                self@.errors == old(self)@.errors,
                start0 + 1 <= self@.curr <= close,
                close == crate::model::string_body_end(s, self@.curr),
                close == crate::model::string_body_end(s, start0 + 1),
                start0 < s.len(),
                s[start0] == '"',
                line0 <= start0,
                self@.line == line0 + crate::model::newlines(s, start0 + 1, self@.curr),
            decreases close - self@.curr,
        {
            proof {
                crate::model::lemma_string_body_end(s, self@.curr);
                crate::model::lemma_newlines_bounds(s, start0 + 1, self@.curr);
                crate::model::lemma_newlines_snoc(s, start0 + 1, self@.curr);
            }
            if self.peek() == '\n' {
                self.line = self.line + 1;
            }
            self.advance();
        }
        proof {
            crate::model::lemma_string_body_end(s, self@.curr);
            crate::model::lemma_newlines_bounds(s, start0 + 1, self@.curr);
        }
        if self.at_end() {
            let line: usize = self.line;
            let ghost pre = self.errors@;
            self.errors.push(LexError::UnterminatedString { line });
            proof {
                lemma_errors_view_push(pre, (LexError::UnterminatedString { line }));
            }
        } else {
            self.advance();
            let value: String = self
                .code
                .as_str()
                .substring_char(self.start + 1, self.curr - 1)
                .to_owned();
            self.create_token(TokenKind::StringT { value });
        }
    }

    /// Scans the rest of a number literal whose first digit, at the
    /// start-of-lexeme cursor, has just been consumed: consumes the maximal
    /// digit run, then a decimal point and a further maximal digit run when
    /// the point is directly followed by a digit, and appends the number
    /// token. A trailing point is left unconsumed.
    fn number(&mut self)
        requires
            old(self).wf(),
            old(self)@.start < old(self)@.code.len(),
            old(self)@.curr == old(self)@.start + 1,
            is_digit(old(self)@.code[old(self)@.start]),
        ensures
            final(self).wf(),
            ({
                let st = crate::model::number_step(
                    old(self)@.code,
                    old(self)@.start,
                    old(self)@.line,
                );
                final(self)@ == (SpecScanner {
                    curr: st.next,
                    tokens: match st.tok {
                        Some(t) => old(self)@.tokens.push(t),
                        None => old(self)@.tokens,
                    },
                    ..old(self)@
                })
            }),
    {
        let ghost s = self.code@;
        let ghost start0 = self@.start;
        let ghost whole = crate::model::digits_end(s, start0);
        proof {
            crate::model::lemma_digits_end(s, start0);
            assert(crate::model::digits_end(s, start0) == crate::model::digits_end(
                s,
                start0 + 1,
            ));
        }
        while is_digit_char(self.peek())
            invariant
                self.wf(),
                self@.code == s,
                self@.start == start0,
                self@.tokens == old(self)@.tokens,
                self@.errors == old(self)@.errors,
                self@.line == old(self)@.line,
                start0 + 1 <= self@.curr <= whole,
                whole == crate::model::digits_end(s, self@.curr),
                whole == crate::model::digits_end(s, start0),
            decreases whole - self@.curr,
        {
            proof {
                crate::model::lemma_digits_end(s, self@.curr);
            }
            self.advance();
        }
        proof {
            crate::model::lemma_digits_end(s, self@.curr);
            assert(self@.curr == whole);
        }
        if self.peek() == '.' && is_digit_char(self.peek_next()) {
            self.advance();
            let ghost frac = crate::model::digits_end(s, whole + 1);
            proof {
                crate::model::lemma_digits_end(s, whole + 1);
            }
            while is_digit_char(self.peek())
                invariant
                    self.wf(),
                    self@.code == s,
                    self@.start == start0,
                    self@.tokens == old(self)@.tokens,
                    self@.errors == old(self)@.errors,
                    self@.line == old(self)@.line,
                    whole + 1 <= self@.curr <= frac,
                    frac == crate::model::digits_end(s, self@.curr),
                    frac == crate::model::digits_end(s, whole + 1),
                decreases frac - self@.curr,
            {
                proof {
                    crate::model::lemma_digits_end(s, self@.curr);
                }
                self.advance();
            }
            proof {
                crate::model::lemma_digits_end(s, self@.curr);
                assert(self@.curr == frac);
            }
        }
        let text: String = self.code.as_str().substring_char(self.start, self.curr).to_owned();
        self.create_token(TokenKind::Number { text });
    }

    /// Scans the rest of an identifier or keyword whose first character, at
    /// the start-of-lexeme cursor, has just been consumed: consumes the
    /// maximal identifier run, looks the lexeme up in the keyword table,
    /// and appends the keyword token on a hit or an identifier token on a
    /// miss.
    fn identifier(&mut self)
        requires
            old(self).wf(),
            old(self)@.start < old(self)@.code.len(),
            old(self)@.curr == old(self)@.start + 1,
            is_ident_cont(old(self)@.code[old(self)@.start]),
        ensures
            final(self).wf(),
            ({
                let st = crate::model::ident_step(
                    old(self)@.code,
                    old(self)@.start,
                    old(self)@.line,
                );
                final(self)@ == (SpecScanner {
                    curr: st.next,
                    tokens: match st.tok {
                        Some(t) => old(self)@.tokens.push(t),
                        None => old(self)@.tokens,
                    },
                    ..old(self)@
                })
            }),
    {
        let ghost s = self.code@;
        let ghost start0 = self@.start;
        let ghost end = crate::model::ident_end(s, start0);
        proof {
            crate::model::lemma_ident_end(s, start0);
            assert(crate::model::ident_end(s, start0) == crate::model::ident_end(s, start0 + 1));
        }
        while is_ident_cont_char(self.peek())
            invariant
                self.wf(),
                self@.code == s,
                self@.start == start0,
                self@.tokens == old(self)@.tokens,
                self@.errors == old(self)@.errors,
                self@.line == old(self)@.line,
                start0 + 1 <= self@.curr <= end,
                end == crate::model::ident_end(s, self@.curr),
                end == crate::model::ident_end(s, start0),
            decreases end - self@.curr,
        {
            proof {
                crate::model::lemma_ident_end(s, self@.curr);
            }
            self.advance();
        }
        proof {
            crate::model::lemma_ident_end(s, self@.curr);
            assert(self@.curr == end);
        }
        let text: String = self.code.as_str().substring_char(self.start, self.curr).to_owned();
        match Scanner::get_keyword(text.as_str()) {
            Some(k) => self.create_token(k),
            None => self.create_token(TokenKind::Identifier { name: text }),
        }
    }

    /// Consumes one lexical unit beginning at the current cursor (which
    /// both cursors point at, and which holds a character): dispatches on
    /// the first character, consuming it and whatever the unit needs after
    /// it, and appends the token or error the unit produces, if any.
    fn scan_token(&mut self)
        requires
            old(self).wf(),
            old(self)@.curr < old(self)@.code.len(),
            old(self)@.start == old(self)@.curr,
        ensures
            final(self).wf(),
            ({
                let st = crate::model::scan_step(
                    old(self)@.code,
                    old(self)@.curr,
                    old(self)@.line,
                );
                final(self)@ == (SpecScanner {
                    curr: st.next,
                    line: st.line,
                    tokens: match st.tok {
                        Some(t) => old(self)@.tokens.push(t),
                        None => old(self)@.tokens,
                    },
                    errors: match st.err {
                        Some(e) => old(self)@.errors.push(e),
                        None => old(self)@.errors,
                    },
                    ..old(self)@
                })
            }),
    {
        let ghost s = self.code@;
        let ghost start0 = self@.curr;
        let c = self.peek();
        self.advance();
        match c {
            '(' => self.create_token(TokenKind::LeftParen),
            ')' => self.create_token(TokenKind::RightParen),
            '{' => self.create_token(TokenKind::LeftBrace),
            '}' => self.create_token(TokenKind::RightBrace),
            ',' => self.create_token(TokenKind::Comma),
            '.' => self.create_token(TokenKind::Dot),
            '-' => self.create_token(TokenKind::Minus),
            '+' => self.create_token(TokenKind::Plus),
            ';' => self.create_token(TokenKind::Semicolon),
            '*' => self.create_token(TokenKind::Star),
            '!' => {
                if self.peek() == '=' {
                    self.advance();
                    self.create_token(TokenKind::BangEqual);
                } else {
                    self.create_token(TokenKind::Bang);
                }
            },
            '=' => {
                if self.peek() == '=' {
                    self.advance();
                    self.create_token(TokenKind::EqualEqual);
                } else {
                    self.create_token(TokenKind::Equal);
                }
            },
            '<' => {
                if self.peek() == '=' {
                    self.advance();
                    self.create_token(TokenKind::LessEqual);
                } else {
                    self.create_token(TokenKind::Less);
                }
            },
            '>' => {
                if self.peek() == '=' {
                    self.advance();
                    self.create_token(TokenKind::GreaterEqual);
                } else {
                    self.create_token(TokenKind::Greater);
                }
            },
            '/' => {
                if self.peek() == '/' {
                    self.advance();
                    let ghost ce = crate::model::comment_end(s, start0 + 2);
                    proof {
                        crate::model::lemma_comment_end(s, start0 + 2);
                    }
                    while self.peek() != '\n' && !self.at_end()
                        invariant
                            self.wf(),
                            self@.code == s,
                            self@.start == start0,
                            self@.line == old(self)@.line,
                            self@.tokens == old(self)@.tokens,
                            self@.errors == old(self)@.errors,
                            start0 + 2 <= self@.curr <= ce,
                            ce == crate::model::comment_end(s, self@.curr),
                            ce == crate::model::comment_end(s, start0 + 2),
                        decreases ce - self@.curr,
                    {
                        proof {
                            crate::model::lemma_comment_end(s, self@.curr);
                        }
                        self.advance();
                    }
                    proof {
                        crate::model::lemma_comment_end(s, self@.curr);
                        assert(self@.curr == ce);
                    }
                } else {
                    self.create_token(TokenKind::Slash);
                }
            },
            ' ' => (),
            '\t' => (),
            '\r' => (),
            '\n' => {
                self.line = self.line + 1;
            },
            '"' => self.string(),
            _ => {
                if is_digit_char(c) {
                    self.number();
                } else if is_alpha_char(c) || c == '_' {
                    self.identifier();
                } else {
                    let line: usize = self.line;
                    let ghost pre = self.errors@;
                    self.errors.push(LexError::UnexpectedCharacter { ch: c, line });
                    proof {
                        lemma_errors_view_push(
                            pre,
                            (LexError::UnexpectedCharacter { ch: c, line }),
                        );
                    }
                }
            },
        }
    }

    /// Scans the whole source text: one lexical unit after another until
    /// the end of the input, then appends the terminal end-of-input token
    /// (empty lexeme, final line), and returns the token list. The tokens
    /// and errors produced are exactly those of the scanning model on the
    /// source text; after a scan from a fresh scanner they are
    /// [`crate::model::scan_tokens`] and [`crate::model::scan_errors`] of
    /// the source. A caller must check [`Scanner::errors`] (or
    /// [`Scanner::had_error`]) before treating the tokens as a successful
    /// scan.
    pub fn scan_file(&mut self) -> (tokens: &Vec<Token>)
        requires
            old(self).wf(),
        ensures
            final(self).wf(),
            ({
                let r = crate::model::scan_from(
                    old(self)@.code,
                    old(self)@.curr,
                    old(self)@.line,
                );
                final(self)@ == (SpecScanner {
                    start: old(self)@.code.len() as int,
                    curr: old(self)@.code.len() as int,
                    line: r.line,
                    tokens: old(self)@.tokens + r.tokens + seq![
                        crate::model::eof_token(r.line),
                    ],
                    errors: old(self)@.errors + r.errors,
                    ..old(self)@
                })
            }),
            tokens_view(tokens@) == final(self)@.tokens,
            (old(self)@.curr == 0 && old(self)@.line == 0 && old(self)@.tokens
                == Seq::<SpecToken>::empty() && old(self)@.errors == Seq::<SpecError>::empty())
                ==> (final(self)@.tokens == crate::model::scan_tokens(old(self)@.code)
                && final(self)@.errors == crate::model::scan_errors(old(self)@.code)),
    {
        let ghost s = self.code@;
        let ghost c0 = self@.curr;
        let ghost l0 = self@.line;
        let ghost t0 = self@.tokens;
        let ghost e0 = self@.errors;
        let ghost r0 = crate::model::scan_from(s, c0, l0);
        while !self.at_end()
            invariant
                self.wf(),
                self@.code == s,
                0 <= c0 <= s.len(),
                r0 == crate::model::scan_from(s, c0, l0),
                t0 + r0.tokens == self@.tokens + crate::model::scan_from(
                    s,
                    self@.curr,
                    self@.line,
                ).tokens,
                e0 + r0.errors == self@.errors + crate::model::scan_from(
                    s,
                    self@.curr,
                    self@.line,
                ).errors,
                r0.line == crate::model::scan_from(s, self@.curr, self@.line).line,
            decreases s.len() - self@.curr,
        {
            let ghost c = self@.curr;
            let ghost l = self@.line;
            let ghost tcur = self@.tokens;
            let ghost ecur = self@.errors;
            proof {
                crate::model::lemma_scan_step_next(s, c, l);
            }
            self.start = self.curr;
            self.scan_token();
            proof {
                let st = crate::model::scan_step(s, c, l);
                let rest = crate::model::scan_from(s, st.next, st.line);
                let rc = crate::model::scan_from(s, c, l);
                assert(rc.tokens == crate::model::opt_seq(st.tok) + rest.tokens);
                assert(rc.errors == crate::model::opt_seq(st.err) + rest.errors);
                match st.tok {
                    Some(t) => {
                        assert(tcur + (crate::model::opt_seq(st.tok) + rest.tokens) =~= tcur.push(
                            t,
                        ) + rest.tokens);
                    },
                    None => {
                        assert(tcur + (crate::model::opt_seq(st.tok) + rest.tokens) =~= tcur
                            + rest.tokens);
                    },
                }
                match st.err {
                    Some(e) => {
                        assert(ecur + (crate::model::opt_seq(st.err) + rest.errors) =~= ecur.push(
                            e,
                        ) + rest.errors);
                    },
                    None => {
                        assert(ecur + (crate::model::opt_seq(st.err) + rest.errors) =~= ecur
                            + rest.errors);
                    },
                }
            }
        }
        proof {
            assert(crate::model::scan_from(s, self@.curr, self@.line).tokens
                =~= Seq::<SpecToken>::empty());
            assert(t0 + r0.tokens =~= self@.tokens);
            assert(e0 + r0.errors =~= self@.errors);
        }
        self.start = self.curr;
        let ghost pre = self@;
        self.create_token(TokenKind::Eof);
        proof {
            assert(s.subrange(pre.start, pre.curr) =~= Seq::<char>::empty());
            assert(self@.tokens =~= t0 + r0.tokens + seq![crate::model::eof_token(r0.line)]);
            if c0 == 0 && l0 == 0 && t0 == Seq::<SpecToken>::empty() && e0 == Seq::<
                SpecError,
            >::empty() {
                assert(self@.tokens =~= crate::model::scan_tokens(s));
                assert(self@.errors =~= crate::model::scan_errors(s));
            }
        }
        &self.tokens
    }

    /// The tokens produced so far, in source order.
    pub fn tokens(&self) -> (r: &Vec<Token>)
        ensures
            tokens_view(r@) == self@.tokens,
    {
        &self.tokens
    }

    /// The lexical errors recorded so far, in source order.
    pub fn errors(&self) -> (r: &Vec<LexError>)
        ensures
            errors_view(r@) == self@.errors,
    {
        &self.errors
    }

    /// Whether the scan recorded any lexical error. A caller must not
    /// treat the token sequence as a successful scan when this holds.
    pub fn had_error(&self) -> (r: bool)
        ensures
            r == (self@.errors.len() > 0),
    {
        self.errors.len() > 0
    }
}

} // verus!
