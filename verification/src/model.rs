//! The mathematical model of scanning: what sequence of tokens and errors a
//! given source text produces.

use vstd::prelude::*;

use crate::token::SpecError;
use crate::token::SpecToken;
use crate::token::SpecTokenKind;

verus! {

/// The character of `s` at position `i`, or the null sentinel when `i` is
/// out of range: what a read-only peek at `i` yields.
pub open spec fn char_at(s: Seq<char>, i: int) -> char {
    if 0 <= i < s.len() {
        s[i]
    } else {
        '\0'
    }
}

/// Whether `c` is an ASCII decimal digit.
pub open spec fn is_digit(c: char) -> bool {
    '0' <= c && c <= '9'
}

/// Whether `c` is an ASCII letter.
pub open spec fn is_alpha(c: char) -> bool {
    ('a' <= c && c <= 'z') || ('A' <= c && c <= 'Z')
}

/// Whether `c` may start an identifier: an ASCII letter or an underscore.
pub open spec fn is_ident_start(c: char) -> bool {
    is_alpha(c) || c == '_'
}

/// Whether `c` may continue an identifier: an ASCII letter, an ASCII digit,
/// or an underscore. The underscore is accepted in continuation position as
/// well as in start position.
pub open spec fn is_ident_cont(c: char) -> bool {
    is_alpha(c) || is_digit(c) || c == '_'
}

/// The first position at or after `i` that does not hold a digit, or the end
/// of the text: the end of the maximal digit run starting at `i`.
pub open spec fn digits_end(s: Seq<char>, i: int) -> int
    decreases s.len() - i,
{
    if 0 <= i < s.len() && is_digit(s[i]) {
        digits_end(s, i + 1)
    } else {
        i
    }
}

/// The end of the maximal identifier-continuation run starting at `i`.
pub open spec fn ident_end(s: Seq<char>, i: int) -> int
    decreases s.len() - i,
{
    if 0 <= i < s.len() && is_ident_cont(s[i]) {
        ident_end(s, i + 1)
    } else {
        i
    }
}

/// The position of the first `"` at or after `i`, or the end of the text:
/// where the body of a string literal opened before `i` stops.
pub open spec fn string_body_end(s: Seq<char>, i: int) -> int
    decreases s.len() - i,
{
    if 0 <= i < s.len() && s[i] != '"' {
        string_body_end(s, i + 1)
    } else {
        i
    }
}

/// The position of the first newline at or after `i`, or the end of the
/// text: where a line comment opened before `i` stops.
pub open spec fn comment_end(s: Seq<char>, i: int) -> int
    decreases s.len() - i,
{
    if 0 <= i < s.len() && s[i] != '\n' {
        comment_end(s, i + 1)
    } else {
        i
    }
}

/// How many newline characters `s` holds in the index range `[i, j)`.
pub open spec fn newlines(s: Seq<char>, i: int, j: int) -> int
    decreases j - i,
{
    if i < j {
        (if 0 <= i < s.len() && s[i] == '\n' {
            1int
        } else {
            0int
        }) + newlines(s, i + 1, j)
    } else {
        0
    }
}

/// The keyword kind whose spelling is exactly `s`, if there is one. Keywords
/// are matched exactly and case-sensitively, never by prefix.
pub open spec fn keyword_of(s: Seq<char>) -> Option<SpecTokenKind> {
    if s == "and"@ {
        Some(SpecTokenKind::And)
    } else if s == "class"@ {
        Some(SpecTokenKind::Class)
    } else if s == "else"@ {
        Some(SpecTokenKind::Else)
    } else if s == "false"@ {
        Some(SpecTokenKind::False)
    } else if s == "for"@ {
        Some(SpecTokenKind::For)
    } else if s == "fun"@ {
        Some(SpecTokenKind::Fun)
    } else if s == "if"@ {
        Some(SpecTokenKind::If)
    } else if s == "nil"@ {
        Some(SpecTokenKind::Nil)
    } else if s == "or"@ {
        Some(SpecTokenKind::Or)
    } else if s == "print"@ {
        Some(SpecTokenKind::Print)
    } else if s == "return"@ {
        Some(SpecTokenKind::Return)
    } else if s == "super"@ {
        Some(SpecTokenKind::Super)
    } else if s == "this"@ {
        Some(SpecTokenKind::This)
    } else if s == "true"@ {
        Some(SpecTokenKind::True)
    } else if s == "var"@ {
        Some(SpecTokenKind::Var)
    } else if s == "while"@ {
        Some(SpecTokenKind::While)
    } else {
        None
    }
}

/// The effect of consuming one lexical unit: the cursor position and line
/// counter after it, and the token or error it produced, if any.
pub struct Step {
    pub next: int,
    pub line: int,
    pub tok: Option<SpecToken>,
    pub err: Option<SpecError>,
}

/// A step that consumed `[start, end)` and produced the token `kind` there,
/// carrying the line `line` reached at its end.
pub open spec fn token_step(s: Seq<char>, start: int, end: int, line: int, kind: SpecTokenKind) -> Step {
    Step {
        next: end,
        line,
        tok: Some(SpecToken { kind, lexeme: s.subrange(start, end), line }),
        err: None,
    }
}

/// A step that consumed `[start, end)` and produced nothing.
pub open spec fn silent_step(end: int, line: int) -> Step {
    Step { next: end, line, tok: None, err: None }
}

/// The step for an operator that is `one` alone and `two` when an `=`
/// follows it directly.
pub open spec fn pair_step(
    s: Seq<char>,
    start: int,
    line: int,
    one: SpecTokenKind,
    two: SpecTokenKind,
) -> Step {
    if start + 1 < s.len() && s[start + 1] == '=' {
        token_step(s, start, start + 2, line, two)
    } else {
        token_step(s, start, start + 1, line, one)
    }
}

/// The step for a string literal opened by the `"` at `start`: its body runs
/// to the next `"`. Newlines inside the body are counted into the line. If
/// the input ends before a closing quote, the literal is an unterminated-
/// string error and no token is produced; otherwise the token's payload is
/// the text strictly between the quotes and its lexeme includes them.
pub open spec fn string_step(s: Seq<char>, start: int, line: int) -> Step {
    let close = string_body_end(s, start + 1);
    if close >= s.len() {
        let end_line = line + newlines(s, start + 1, s.len() as int);
        Step {
            next: s.len() as int,
            line: end_line,
            tok: None,
            err: Some(SpecError::UnterminatedString { line: end_line }),
        }
    } else {
        let end_line = line + newlines(s, start + 1, close);
        token_step(
            s,
            start,
            close + 1,
            end_line,
            SpecTokenKind::StringT { value: s.subrange(start + 1, close) },
        )
    }
}

/// Where the number literal whose first digit stands at `start` ends: after
/// the maximal digit run, and, when a decimal point directly followed by a
/// digit comes next, after the point and the further maximal digit run. A
/// trailing point with no digit after it is not part of the number.
pub open spec fn number_end(s: Seq<char>, start: int) -> int {
    let whole = digits_end(s, start);
    if whole + 1 < s.len() && s[whole] == '.' && is_digit(s[whole + 1]) {
        digits_end(s, whole + 1)
    } else {
        whole
    }
}

/// The step for a number literal: its payload is its digit text.
pub open spec fn number_step(s: Seq<char>, start: int, line: int) -> Step {
    let end = number_end(s, start);
    token_step(s, start, end, line, SpecTokenKind::Number { text: s.subrange(start, end) })
}

/// The step for an identifier or keyword: the maximal identifier run is
/// taken, then looked up in the keyword table.
pub open spec fn ident_step(s: Seq<char>, start: int, line: int) -> Step {
    let end = ident_end(s, start);
    let text = s.subrange(start, end);
    let kind = match keyword_of(text) {
        Some(k) => k,
        None => SpecTokenKind::Identifier { name: text },
    };
    token_step(s, start, end, line, kind)
}

/// One dispatch of the scanner at position `start` (which must hold a
/// character) on line `line`: which lexical unit begins there, what it
/// consumes, and what it produces.
pub open spec fn scan_step(s: Seq<char>, start: int, line: int) -> Step
    recommends
        0 <= start < s.len(),
{
    let c = s[start];
    if c == '(' {
        token_step(s, start, start + 1, line, SpecTokenKind::LeftParen)
    } else if c == ')' {
        token_step(s, start, start + 1, line, SpecTokenKind::RightParen)
    } else if c == '{' {
        token_step(s, start, start + 1, line, SpecTokenKind::LeftBrace)
    } else if c == '}' {
        token_step(s, start, start + 1, line, SpecTokenKind::RightBrace)
    } else if c == ',' {
        token_step(s, start, start + 1, line, SpecTokenKind::Comma)
    } else if c == '.' {
        token_step(s, start, start + 1, line, SpecTokenKind::Dot)
    } else if c == '-' {
        token_step(s, start, start + 1, line, SpecTokenKind::Minus)
    } else if c == '+' {
        token_step(s, start, start + 1, line, SpecTokenKind::Plus)
    } else if c == ';' {
        token_step(s, start, start + 1, line, SpecTokenKind::Semicolon)
    } else if c == '*' {
        token_step(s, start, start + 1, line, SpecTokenKind::Star)
    } else if c == '!' {
        pair_step(s, start, line, SpecTokenKind::Bang, SpecTokenKind::BangEqual)
    } else if c == '=' {
        pair_step(s, start, line, SpecTokenKind::Equal, SpecTokenKind::EqualEqual)
    } else if c == '<' {
        pair_step(s, start, line, SpecTokenKind::Less, SpecTokenKind::LessEqual)
    } else if c == '>' {
        pair_step(s, start, line, SpecTokenKind::Greater, SpecTokenKind::GreaterEqual)
    } else if c == '/' {
        if start + 1 < s.len() && s[start + 1] == '/' {
            silent_step(comment_end(s, start + 2), line)
        } else {
            token_step(s, start, start + 1, line, SpecTokenKind::Slash)
        }
    } else if c == ' ' || c == '\t' || c == '\r' {
        silent_step(start + 1, line)
    } else if c == '\n' {
        silent_step(start + 1, line + 1)
    } else if c == '"' {
        string_step(s, start, line)
    } else if is_digit(c) {
        number_step(s, start, line)
    } else if is_ident_start(c) {
        ident_step(s, start, line)
    } else {
        Step {
            next: start + 1,
            line,
            tok: None,
            err: Some(SpecError::UnexpectedCharacter { ch: c, line }),
        }
    }
}

/// The sequence an optional element contributes: one element or none.
pub open spec fn opt_seq<A>(o: Option<A>) -> Seq<A> {
    match o {
        Some(a) => seq![a],
        None => Seq::<A>::empty(),
    }
}

/// What a whole scan produces: the tokens and errors in source order, and
/// the line counter it ends on. The terminal end-of-input token is not part
/// of `tokens`; see [`scan_tokens`].
pub struct ScanOutput {
    pub tokens: Seq<SpecToken>,
    pub errors: Seq<SpecError>,
    pub line: int,
}

/// The scan of `s` from position `i` on line `line` to the end of the text:
/// one step after another, each consuming at least one character.
pub open spec fn scan_from(s: Seq<char>, i: int, line: int) -> ScanOutput
    decreases s.len() - i
        when 0 <= i
        via scan_from_decreases
{
    if i >= s.len() {
        ScanOutput { tokens: Seq::<SpecToken>::empty(), errors: Seq::<SpecError>::empty(), line }
    } else {
        let st = scan_step(s, i, line);
        let rest = scan_from(s, st.next, st.line);
        ScanOutput {
            tokens: opt_seq(st.tok) + rest.tokens,
            errors: opt_seq(st.err) + rest.errors,
            line: rest.line,
        }
    }
}

#[via_fn]
proof fn scan_from_decreases(s: Seq<char>, i: int, line: int) {
    if i < s.len() {
        lemma_scan_step_next(s, i, line);
    }
}

/// The end-of-input token: empty lexeme, carrying the line `line`.
pub open spec fn eof_token(line: int) -> SpecToken {
    SpecToken { kind: SpecTokenKind::Eof, lexeme: Seq::<char>::empty(), line }
}

/// The full token sequence a scan of `s` produces: the scanned tokens,
/// terminated by exactly one end-of-input token carrying the final line.
pub open spec fn scan_tokens(s: Seq<char>) -> Seq<SpecToken> {
    scan_from(s, 0, 0).tokens.push(eof_token(scan_from(s, 0, 0).line))
}

/// The errors a scan of `s` records, in source order.
pub open spec fn scan_errors(s: Seq<char>) -> Seq<SpecError> {
    scan_from(s, 0, 0).errors
}

/// The end of a maximal digit run lies between its start and the end of the
/// text, every character before it in the run is a digit, and the character
/// at it (if any) is not.
pub proof fn lemma_digits_end(s: Seq<char>, i: int)
    requires
        0 <= i <= s.len(),
    ensures
        i <= digits_end(s, i) <= s.len(),
        forall|j: int| i <= j < digits_end(s, i) ==> is_digit(s[j]),
        digits_end(s, i) < s.len() ==> !is_digit(s[digits_end(s, i)]),
    decreases s.len() - i,
{
    if i < s.len() && is_digit(s[i]) {
        lemma_digits_end(s, i + 1);
    }
}

/// The bounds and pointwise facts of a maximal identifier run, as for
/// [`lemma_digits_end`].
pub proof fn lemma_ident_end(s: Seq<char>, i: int)
    requires
        0 <= i <= s.len(),
    ensures
        i <= ident_end(s, i) <= s.len(),
        forall|j: int| i <= j < ident_end(s, i) ==> is_ident_cont(s[j]),
        ident_end(s, i) < s.len() ==> !is_ident_cont(s[ident_end(s, i)]),
    decreases s.len() - i,
{
    if i < s.len() && is_ident_cont(s[i]) {
        lemma_ident_end(s, i + 1);
    }
}

/// The bounds and pointwise facts of a string-literal body, as for
/// [`lemma_digits_end`].
pub proof fn lemma_string_body_end(s: Seq<char>, i: int)
    requires
        0 <= i <= s.len(),
    ensures
        i <= string_body_end(s, i) <= s.len(),
        forall|j: int| i <= j < string_body_end(s, i) ==> s[j] != '"',
        string_body_end(s, i) < s.len() ==> s[string_body_end(s, i)] == '"',
    decreases s.len() - i,
{
    if i < s.len() && s[i] != '"' {
        lemma_string_body_end(s, i + 1);
    }
}

/// The bounds and pointwise facts of a line comment, as for
/// [`lemma_digits_end`].
pub proof fn lemma_comment_end(s: Seq<char>, i: int)
    requires
        0 <= i <= s.len(),
    ensures
        i <= comment_end(s, i) <= s.len(),
        forall|j: int| i <= j < comment_end(s, i) ==> s[j] != '\n',
        comment_end(s, i) < s.len() ==> s[comment_end(s, i)] == '\n',
    decreases s.len() - i,
{
    if i < s.len() && s[i] != '\n' {
        lemma_comment_end(s, i + 1);
    }
}

/// The newline count of a range grows by the last character's contribution
/// when the range is extended by one.
pub proof fn lemma_newlines_snoc(s: Seq<char>, i: int, j: int)
    requires
        i <= j,
    ensures
        newlines(s, i, j + 1) == newlines(s, i, j) + (if 0 <= j < s.len() && s[j] == '\n' {
            1int
        } else {
            0int
        }),
    decreases j - i,
{
    if i < j {
        lemma_newlines_snoc(s, i + 1, j);
        assert(newlines(s, i, j + 1) == (if 0 <= i < s.len() && s[i] == '\n' {
            1int
        } else {
            0int
        }) + newlines(s, i + 1, j + 1));
    } else {
        assert(newlines(s, i, j) == 0);
        assert(newlines(s, i + 1, j + 1) == 0);
        assert(newlines(s, i, j + 1) == (if 0 <= i < s.len() && s[i] == '\n' {
            1int
        } else {
            0int
        }) + newlines(s, i + 1, j + 1));
    }
}

/// A newline count is never negative and never exceeds the range's width.
pub proof fn lemma_newlines_bounds(s: Seq<char>, i: int, j: int)
    requires
        i <= j,
    ensures
        0 <= newlines(s, i, j) <= j - i,
    decreases j - i,
{
    if i < j {
        lemma_newlines_bounds(s, i + 1, j);
    }
}

/// A range without newline characters counts zero newlines.
pub proof fn lemma_newlines_none(s: Seq<char>, i: int, j: int)
    requires
        i <= j,
        forall|k: int| i <= k < j && 0 <= k < s.len() ==> s[k] != '\n',
    ensures
        newlines(s, i, j) == 0,
    decreases j - i,
{
    if i < j {
        lemma_newlines_none(s, i + 1, j);
    }
}

/// Newline counts add over adjacent ranges.
pub proof fn lemma_newlines_concat(s: Seq<char>, i: int, j: int, k: int)
    requires
        i <= j <= k,
    ensures
        newlines(s, i, k) == newlines(s, i, j) + newlines(s, j, k),
    decreases j - i,
{
    if i < j {
        lemma_newlines_concat(s, i + 1, j, k);
    }
}

impl SpecError {
    /// The line an error reports.
    pub open spec fn line(self) -> int {
        match self {
            SpecError::UnterminatedString { line } => line,
            SpecError::UnexpectedCharacter { ch: _, line } => line,
        }
    }
}

/// Every dispatch consumes at least one character and stops within the
/// text.
pub proof fn lemma_scan_step_next(s: Seq<char>, start: int, line: int)
    requires
        0 <= start < s.len(),
    ensures
        start < scan_step(s, start, line).next <= s.len(),
{
    let c = s[start];
    if c == '/' && start + 1 < s.len() && s[start + 1] == '/' {
        lemma_comment_end(s, start + 2);
    } else if c == '"' {
        lemma_string_body_end(s, start + 1);
    } else if is_digit(c) {
        lemma_digits_end(s, start);
        assert(digits_end(s, start) == digits_end(s, start + 1));
        let whole = digits_end(s, start);
        if whole + 1 < s.len() && s[whole] == '.' && is_digit(s[whole + 1]) {
            lemma_digits_end(s, whole + 1);
        }
    } else if is_ident_start(c) {
        lemma_ident_end(s, start);
        assert(ident_end(s, start) == ident_end(s, start + 1));
    }
}

/// A dispatch advances the line counter by exactly the newlines it
/// consumes, and stamps that reached line on whatever it produces.
pub proof fn lemma_scan_step_line(s: Seq<char>, start: int, line: int)
    requires
        0 <= start < s.len(),
    ensures
        scan_step(s, start, line).line == line + newlines(s, start, scan_step(s, start, line).next),
        scan_step(s, start, line).tok matches Some(t) ==> t.line == scan_step(s, start, line).line,
        scan_step(s, start, line).err matches Some(e) ==> e.line() == scan_step(s, start, line).line,
{
    let c = s[start];
    let st = scan_step(s, start, line);
    if c == '/' && start + 1 < s.len() && s[start + 1] == '/' {
        lemma_comment_end(s, start + 2);
        lemma_newlines_none(s, start, st.next);
    } else if c == '"' {
        let close = string_body_end(s, start + 1);
        lemma_string_body_end(s, start + 1);
        if close >= s.len() {
            assert(newlines(s, start, s.len() as int) == newlines(s, start + 1, s.len() as int));
        } else {
            lemma_newlines_snoc(s, start + 1, close);
            assert(newlines(s, start, close + 1) == newlines(s, start + 1, close + 1));
        }
    } else if is_digit(c) {
        let whole = digits_end(s, start);
        lemma_digits_end(s, start);
        if whole + 1 < s.len() && s[whole] == '.' && is_digit(s[whole + 1]) {
            lemma_digits_end(s, whole + 1);
        }
        lemma_newlines_none(s, start, st.next);
    } else if is_ident_start(c) {
        lemma_ident_end(s, start);
        lemma_newlines_none(s, start, st.next);
    } else if c == '\n' {
        assert(newlines(s, start + 1, start + 1) == 0);
        assert(newlines(s, start, start + 1) == 1);
    } else {
        lemma_newlines_none(s, start, start + 1);
        if (c == '!' || c == '=' || c == '<' || c == '>') && start + 1 < s.len() && s[start + 1]
            == '=' {
            lemma_newlines_none(s, start, start + 2);
        }
    }
}

/// A dispatch never produces the end-of-input token: that token is appended
/// once, after the scan.
pub proof fn lemma_scan_step_not_eof(s: Seq<char>, start: int, line: int)
    requires
        0 <= start < s.len(),
    ensures
        scan_step(s, start, line).tok matches Some(t) ==> t.kind != SpecTokenKind::Eof,
{
}

/// A scan ends on the initial line plus the number of newline characters in
/// the rest of the text.
pub proof fn lemma_scan_from_line(s: Seq<char>, i: int, line: int)
    requires
        0 <= i <= s.len(),
    ensures
        scan_from(s, i, line).line == line + newlines(s, i, s.len() as int),
    decreases s.len() - i,
{
    if i < s.len() {
        let st = scan_step(s, i, line);
        lemma_scan_step_next(s, i, line);
        lemma_scan_step_line(s, i, line);
        lemma_scan_from_line(s, st.next, st.line);
        lemma_newlines_concat(s, i, st.next, s.len() as int);
    }
}

/// Every token and error of a scan carries a line between the initial and
/// the final line, and those lines never decrease along the output.
pub proof fn lemma_scan_from_lines_ordered(s: Seq<char>, i: int, line: int)
    requires
        0 <= i <= s.len(),
    ensures
        line <= scan_from(s, i, line).line,
        forall|k: int|
            0 <= k < scan_from(s, i, line).tokens.len() ==> line <= #[trigger] scan_from(
                s,
                i,
                line,
            ).tokens[k].line <= scan_from(s, i, line).line,
        forall|k1: int, k2: int|
            0 <= k1 <= k2 < scan_from(s, i, line).tokens.len() ==> scan_from(
                s,
                i,
                line,
            ).tokens[k1].line <= scan_from(s, i, line).tokens[k2].line,
        forall|k: int|
            0 <= k < scan_from(s, i, line).errors.len() ==> line <= #[trigger] scan_from(
                s,
                i,
                line,
            ).errors[k].line() <= scan_from(s, i, line).line,
    decreases s.len() - i,
{
    if i < s.len() {
        let st = scan_step(s, i, line);
        lemma_scan_step_next(s, i, line);
        lemma_scan_step_line(s, i, line);
        lemma_newlines_bounds(s, i, st.next);
        lemma_scan_from_lines_ordered(s, st.next, st.line);
        let rest = scan_from(s, st.next, st.line);
        let r = scan_from(s, i, line);
        assert(r.tokens == opt_seq(st.tok) + rest.tokens);
        assert forall|k: int| 0 <= k < r.tokens.len() implies line <= #[trigger] r.tokens[k].line
            <= r.line by {
            if k >= opt_seq(st.tok).len() {
                assert(r.tokens[k] == rest.tokens[k - opt_seq(st.tok).len()]);
            }
        }
        assert forall|k1: int, k2: int| 0 <= k1 <= k2 < r.tokens.len() implies r.tokens[k1].line
            <= r.tokens[k2].line by {
            let n0 = opt_seq(st.tok).len();
            if k1 < n0 {
                if k2 >= n0 {
                    assert(r.tokens[k2] == rest.tokens[k2 - n0]);
                }
            } else {
                assert(r.tokens[k1] == rest.tokens[k1 - n0]);
                assert(r.tokens[k2] == rest.tokens[k2 - n0]);
            }
        }
        assert forall|k: int| 0 <= k < r.errors.len() implies line <= #[trigger] r.errors[k].line()
            <= r.line by {
            if k >= opt_seq(st.err).len() {
                assert(r.errors[k] == rest.errors[k - opt_seq(st.err).len()]);
            }
        }
    }
}

/// No token before the end of a scan is the end-of-input token.
pub proof fn lemma_scan_from_no_eof(s: Seq<char>, i: int, line: int)
    requires
        0 <= i <= s.len(),
    ensures
        forall|k: int|
            0 <= k < scan_from(s, i, line).tokens.len() ==> (#[trigger] scan_from(
                s,
                i,
                line,
            ).tokens[k]).kind != SpecTokenKind::Eof,
    decreases s.len() - i,
{
    if i < s.len() {
        let st = scan_step(s, i, line);
        lemma_scan_step_next(s, i, line);
        lemma_scan_step_not_eof(s, i, line);
        lemma_scan_from_no_eof(s, st.next, st.line);
        let rest = scan_from(s, st.next, st.line);
        let r = scan_from(s, i, line);
        assert forall|k: int| 0 <= k < r.tokens.len() implies (#[trigger] r.tokens[k]).kind
            != SpecTokenKind::Eof by {
            if k >= opt_seq(st.tok).len() {
                assert(r.tokens[k] == rest.tokens[k - opt_seq(st.tok).len()]);
            }
        }
    }
}

/// Law: a scan's token sequence is never empty, and it is terminated by
/// exactly one end-of-input token, whose lexeme is empty and whose line is
/// the final line reached.
pub proof fn lemma_eof_terminated(s: Seq<char>)
    ensures
        scan_tokens(s).len() >= 1,
        scan_tokens(s).last() == eof_token(scan_from(s, 0, 0).line),
        forall|k: int|
            0 <= k < scan_tokens(s).len() - 1 ==> (#[trigger] scan_tokens(s)[k]).kind
                != SpecTokenKind::Eof,
{
    lemma_scan_from_no_eof(s, 0, 0);
    let r = scan_from(s, 0, 0);
    assert forall|k: int| 0 <= k < scan_tokens(s).len() - 1 implies (#[trigger] scan_tokens(
        s,
    )[k]).kind != SpecTokenKind::Eof by {
        assert(scan_tokens(s)[k] == r.tokens[k]);
    }
}

/// Law: line tracking. The line carried by the terminal end-of-input token
/// is exactly the number of newline characters in the whole source, every
/// token and error carries a line bounded by that number, and reported
/// lines never decrease along the output.
pub proof fn lemma_line_tracking(s: Seq<char>)
    ensures
        scan_tokens(s).last().line == newlines(s, 0, s.len() as int),
        forall|k: int|
            0 <= k < scan_tokens(s).len() ==> 0 <= #[trigger] scan_tokens(s)[k].line <= newlines(
                s,
                0,
                s.len() as int,
            ),
        forall|k1: int, k2: int|
            0 <= k1 <= k2 < scan_tokens(s).len() ==> scan_tokens(s)[k1].line <= scan_tokens(
                s,
            )[k2].line,
        forall|k: int|
            0 <= k < scan_errors(s).len() ==> 0 <= (#[trigger] scan_errors(s)[k]).line()
                <= newlines(s, 0, s.len() as int),
{
    lemma_scan_from_line(s, 0, 0);
    lemma_scan_from_lines_ordered(s, 0, 0);
    let r = scan_from(s, 0, 0);
    let ts = scan_tokens(s);
    assert forall|k: int| 0 <= k < ts.len() implies 0 <= #[trigger] ts[k].line <= newlines(
        s,
        0,
        s.len() as int,
    ) by {
        if k < r.tokens.len() {
            assert(ts[k] == r.tokens[k]);
        } else {
            assert(ts[k] == eof_token(r.line));
        }
    }
    assert forall|k1: int, k2: int| 0 <= k1 <= k2 < ts.len() implies ts[k1].line <= ts[k2].line by {
        if k1 < r.tokens.len() {
            assert(ts[k1] == r.tokens[k1]);
        } else {
            assert(ts[k1] == eof_token(r.line));
        }
        if k2 < r.tokens.len() {
            assert(ts[k2] == r.tokens[k2]);
        } else {
            assert(ts[k2] == eof_token(r.line));
        }
    }
}

/// Law: scanning is deterministic. The tokens and errors a scan produces
/// are a function of the source text alone, so scanning the same text twice
/// yields identical outputs.
pub proof fn lemma_scan_deterministic(s1: Seq<char>, s2: Seq<char>)
    requires
        s1 == s2,
    ensures
        scan_tokens(s1) == scan_tokens(s2),
        scan_errors(s1) == scan_errors(s2),
{
}

} // verus!

