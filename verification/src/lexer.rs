use vstd::prelude::*;

use crate::error::{spec_report_line, spec_unterminated_line, ErrorReporter};
use crate::token::{keyword_kind, spec_keyword, SpecToken, SpecTokenKind, Token, TokenType};

verus! {

// ---------------------------------------------------------------------------
// Character classes
// ---------------------------------------------------------------------------
/// Decimal digit.
pub open spec fn spec_is_digit(c: char) -> bool {
    ('0' as u32) <= (c as u32) && (c as u32) <= ('9' as u32)
}

/// Start of an identifier: an ASCII letter or an underscore.
pub open spec fn spec_is_alpha(c: char) -> bool {
    (('a' as u32) <= (c as u32) && (c as u32) <= ('z' as u32)) || (('A' as u32) <= (c as u32) && (c
        as u32) <= ('Z' as u32)) || c == '_'
}

/// Continuation of an identifier. The underscore is deliberately accepted
/// here as well, so that spellings such as `foo_bar` are one identifier.
pub open spec fn spec_is_alnum(c: char) -> bool {
    spec_is_alpha(c) || spec_is_digit(c)
}

fn is_digit_char(c: char) -> (r: bool)
    ensures
        r == spec_is_digit(c),
{
    ('0' as u32) <= (c as u32) && (c as u32) <= ('9' as u32)
}

fn is_alpha_char(c: char) -> (r: bool)
    ensures
        r == spec_is_alpha(c),
{
    (('a' as u32) <= (c as u32) && (c as u32) <= ('z' as u32)) || (('A' as u32) <= (c as u32) && (c
        as u32) <= ('Z' as u32)) || c == '_'
}

fn is_alnum_char(c: char) -> (r: bool)
    ensures
        r == spec_is_alnum(c),
{
    is_alpha_char(c) || is_digit_char(c)
}

// ---------------------------------------------------------------------------
// Positions: maximal runs and line counting
// ---------------------------------------------------------------------------
/// End of the maximal run of digits starting at `i`.
pub open spec fn digits_end(s: Seq<char>, i: int) -> int
    decreases s.len() - i,
{
    if 0 <= i < s.len() && spec_is_digit(s[i]) {
        digits_end(s, i + 1)
    } else {
        i
    }
}

/// End of the maximal run of identifier characters starting at `i`.
pub open spec fn ident_end(s: Seq<char>, i: int) -> int
    decreases s.len() - i,
{
    if 0 <= i < s.len() && spec_is_alnum(s[i]) {
        ident_end(s, i + 1)
    } else {
        i
    }
}

/// End of a line comment whose text starts at `i`: the position of the next
/// newline, or the end of the source. The newline itself is not part of the
/// comment.
pub open spec fn comment_end(s: Seq<char>, i: int) -> int
    decreases s.len() - i,
{
    if 0 <= i < s.len() && s[i] != '\n' {
        comment_end(s, i + 1)
    } else {
        i
    }
}

/// Position of the closing quote of a string whose contents start at `i`,
/// or the length of the source if the string is never closed.
pub open spec fn string_close(s: Seq<char>, i: int) -> int
    decreases s.len() - i,
{
    if 0 <= i < s.len() {
        if s[i] == '"' {
            i
        } else {
            string_close(s, i + 1)
        }
    } else {
        s.len() as int
    }
}

/// End of a numeric literal starting at `i`: a maximal digit run, and, if a
/// point directly followed by a digit comes next, the point and a second
/// maximal digit run.
pub open spec fn number_end(s: Seq<char>, i: int) -> int {
    let d = digits_end(s, i);
    if d + 1 < s.len() && s[d] == '.' && spec_is_digit(s[d + 1]) {
        digits_end(s, d + 2)
    } else {
        d
    }
}

/// Number of newline characters strictly before position `i`.
pub open spec fn newlines_up_to(s: Seq<char>, i: int) -> nat
    decreases i,
{
    if i <= 0 || i > s.len() {
        0
    } else {
        newlines_up_to(s, i - 1) + (if s[i - 1] == '\n' {
            1nat
        } else {
            0nat
        })
    }
}

/// The 1-based line on which position `i` lies.
pub open spec fn line_of(s: Seq<char>, i: int) -> nat {
    1 + newlines_up_to(s, i)
}

pub proof fn lemma_digits_end(s: Seq<char>, i: int)
    requires
        0 <= i <= s.len(),
    ensures
        i <= digits_end(s, i) <= s.len(),
        forall|j: int| i <= j < digits_end(s, i) ==> spec_is_digit(#[trigger] s[j]),
        digits_end(s, i) < s.len() ==> !spec_is_digit(s[digits_end(s, i)]),
    decreases s.len() - i,
{
    if i < s.len() && spec_is_digit(s[i]) {
        lemma_digits_end(s, i + 1);
    }
}

pub proof fn lemma_ident_end(s: Seq<char>, i: int)
    requires
        0 <= i <= s.len(),
    ensures
        i <= ident_end(s, i) <= s.len(),
        forall|j: int| i <= j < ident_end(s, i) ==> spec_is_alnum(#[trigger] s[j]),
        ident_end(s, i) < s.len() ==> !spec_is_alnum(s[ident_end(s, i)]),
    decreases s.len() - i,
{
    if i < s.len() && spec_is_alnum(s[i]) {
        lemma_ident_end(s, i + 1);
    }
}

pub proof fn lemma_comment_end(s: Seq<char>, i: int)
    requires
        0 <= i <= s.len(),
    ensures
        i <= comment_end(s, i) <= s.len(),
        forall|j: int| i <= j < comment_end(s, i) ==> #[trigger] s[j] != '\n',
        comment_end(s, i) < s.len() ==> s[comment_end(s, i)] == '\n',
    decreases s.len() - i,
{
    if i < s.len() && s[i] != '\n' {
        lemma_comment_end(s, i + 1);
    }
}

pub proof fn lemma_string_close(s: Seq<char>, i: int)
    requires
        0 <= i <= s.len(),
    ensures
        i <= string_close(s, i) <= s.len(),
        forall|j: int| i <= j < string_close(s, i) ==> #[trigger] s[j] != '"',
        string_close(s, i) < s.len() ==> s[string_close(s, i)] == '"',
    decreases s.len() - i,
{
    if i < s.len() && s[i] != '"' {
        lemma_string_close(s, i + 1);
    }
}

/// Newline counting is monotone, never counts more than the positions, and
/// does not change across a span free of newlines.
pub proof fn lemma_newlines_le(s: Seq<char>, i: int, j: int)
    requires
        i <= j <= s.len(),
    ensures
        newlines_up_to(s, i) <= newlines_up_to(s, j),
        newlines_up_to(s, j) <= newlines_up_to(s, i) + (j - i),
    decreases j - i,
{
    if i < j {
        lemma_newlines_le(s, i, j - 1);
    }
}

pub proof fn lemma_newlines_same(s: Seq<char>, i: int, j: int)
    requires
        0 <= i <= j <= s.len(),
        forall|k: int| i <= k < j ==> #[trigger] s[k] != '\n',
    ensures
        newlines_up_to(s, j) == newlines_up_to(s, i),
    decreases j - i,
{
    if i < j {
        lemma_newlines_same(s, i, j - 1);
    }
}

// ---------------------------------------------------------------------------
// The specification scanner
// ---------------------------------------------------------------------------
/// A lexical error, before rendering.
pub ghost enum SpecDiag {
    UnexpectedChar { line: nat },
    UnterminatedString { line: nat },
}

/// What one dispatch step does: where reading resumes, and the token or
/// diagnostic it produced, if any.
pub ghost struct SpecStep {
    pub end: int,
    pub token: Option<SpecToken>,
    pub diag: Option<SpecDiag>,
}

pub open spec fn step_token(s: Seq<char>, i: int, end: int, kind: SpecTokenKind) -> SpecStep {
    SpecStep {
        end,
        token: Some(SpecToken { kind, lexeme: s.subrange(i, end), line: line_of(s, end) }),
        diag: None,
    }
}

pub open spec fn step_skip(end: int) -> SpecStep {
    SpecStep { end, token: None, diag: None }
}

/// Classifies and consumes exactly one token starting at `i` (or absorbs one
/// whitespace character, a comment, or one erroneous character). This is the
/// single-lookahead dispatch that the scanner implements.
pub open spec fn spec_step(s: Seq<char>, i: int) -> SpecStep
    recommends
        0 <= i < s.len(),
{
    let c = s[i];
    if c == '(' {
        step_token(s, i, i + 1, SpecTokenKind::LeftParen)
    } else if c == ')' {
        step_token(s, i, i + 1, SpecTokenKind::RightParen)
    } else if c == '{' {
        step_token(s, i, i + 1, SpecTokenKind::LeftBrace)
    } else if c == '}' {
        step_token(s, i, i + 1, SpecTokenKind::RightBrace)
    } else if c == ',' {
        step_token(s, i, i + 1, SpecTokenKind::Comma)
    } else if c == '.' {
        step_token(s, i, i + 1, SpecTokenKind::Dot)
    } else if c == '-' {
        step_token(s, i, i + 1, SpecTokenKind::Minus)
    } else if c == '+' {
        step_token(s, i, i + 1, SpecTokenKind::Plus)
    } else if c == ';' {
        step_token(s, i, i + 1, SpecTokenKind::Semicolon)
    } else if c == '*' {
        step_token(s, i, i + 1, SpecTokenKind::Star)
    } else if c == '!' {
        if i + 1 < s.len() && s[i + 1] == '=' {
            step_token(s, i, i + 2, SpecTokenKind::BangEqual)
        } else {
            step_token(s, i, i + 1, SpecTokenKind::Bang)
        }
    } else if c == '=' {
        if i + 1 < s.len() && s[i + 1] == '=' {
            step_token(s, i, i + 2, SpecTokenKind::EqualEqual)
        } else {
            step_token(s, i, i + 1, SpecTokenKind::Equal)
        }
    } else if c == '<' {
        if i + 1 < s.len() && s[i + 1] == '=' {
            step_token(s, i, i + 2, SpecTokenKind::LessEqual)
        } else {
            step_token(s, i, i + 1, SpecTokenKind::Less)
        }
    } else if c == '>' {
        if i + 1 < s.len() && s[i + 1] == '=' {
            step_token(s, i, i + 2, SpecTokenKind::GreaterEqual)
        } else {
            step_token(s, i, i + 1, SpecTokenKind::Greater)
        }
    } else if c == '/' {
        if i + 1 < s.len() && s[i + 1] == '/' {
            step_skip(comment_end(s, i + 2))
        } else {
            step_token(s, i, i + 1, SpecTokenKind::Slash)
        }
    } else if c == ' ' || c == '\r' || c == '\t' || c == '\n' {
        step_skip(i + 1)
    } else if spec_is_digit(c) {
        let end = number_end(s, i);
        step_token(s, i, end, SpecTokenKind::Number(s.subrange(i, end)))
    } else if spec_is_alpha(c) {
        let end = ident_end(s, i);
        let text = s.subrange(i, end);
        let kind = match spec_keyword(text) {
            Some(k) => k,
            None => SpecTokenKind::Identifier(text),
        };
        step_token(s, i, end, kind)
    } else if c == '"' {
        let close = string_close(s, i + 1);
        if close < s.len() {
            SpecStep {
                end: close + 1,
                token: Some(
                    SpecToken {
                        kind: SpecTokenKind::StrLit(s.subrange(i + 1, close)),
                        lexeme: s.subrange(i, close + 1),
                        line: line_of(s, close + 1),
                    },
                ),
                diag: None,
            }
        } else {
            SpecStep {
                end: s.len() as int,
                token: None,
                diag: Some(SpecDiag::UnterminatedString { line: line_of(s, s.len() as int) }),
            }
        }
    } else {
        SpecStep {
            end: i + 1,
            token: None,
            diag: Some(SpecDiag::UnexpectedChar { line: line_of(s, i + 1) }),
        }
    }
}

/// Every dispatch step makes progress and stays inside the source.
pub proof fn lemma_step_bounds(s: Seq<char>, i: int)
    requires
        0 <= i < s.len(),
    ensures
        i < spec_step(s, i).end <= s.len(),
{
    let c = s[i];
    if c == '/' && i + 1 < s.len() && s[i + 1] == '/' {
        lemma_comment_end(s, i + 2);
    } else if spec_is_digit(c) {
        lemma_digits_end(s, i + 1);
        let d = digits_end(s, i);
        assert(d == digits_end(s, i + 1));
        if d + 1 < s.len() && s[d] == '.' && spec_is_digit(s[d + 1]) {
            lemma_digits_end(s, d + 2);
        }
    } else if spec_is_alpha(c) {
        lemma_ident_end(s, i + 1);
        assert(ident_end(s, i) == ident_end(s, i + 1));
    } else if c == '"' {
        lemma_string_close(s, i + 1);
    }
}

/// Everything a complete scan of the tail of the source produces.
pub ghost struct SpecScan {
    pub tokens: Seq<SpecToken>,
    pub diags: Seq<SpecDiag>,
}

pub open spec fn opt_seq<A>(o: Option<A>) -> Seq<A> {
    match o {
        Some(a) => seq![a],
        None => Seq::empty(),
    }
}

/// The ordered tokens and diagnostics produced from position `i` onward,
/// excluding the end-of-input marker.
pub open spec fn spec_scan_body(s: Seq<char>, i: int) -> SpecScan
    decreases s.len() - i,
    via spec_scan_body_decreases
{
    if 0 <= i < s.len() {
        let st = spec_step(s, i);
        let rest = spec_scan_body(s, st.end);
        SpecScan {
            tokens: opt_seq(st.token) + rest.tokens,
            diags: opt_seq(st.diag) + rest.diags,
        }
    } else {
        SpecScan { tokens: Seq::empty(), diags: Seq::empty() }
    }
}

#[via_fn]
proof fn spec_scan_body_decreases(s: Seq<char>, i: int) {
    if 0 <= i < s.len() {
        lemma_step_bounds(s, i);
    }
}

/// The end-of-input marker: empty lexeme, final line.
pub open spec fn eof_token(s: Seq<char>) -> SpecToken {
    SpecToken {
        kind: SpecTokenKind::Eof,
        lexeme: Seq::empty(),
        line: line_of(s, s.len() as int),
    }
}

/// The full token sequence of a source text: the scanned tokens followed by
/// exactly one end-of-input marker.
pub open spec fn spec_tokens(s: Seq<char>) -> Seq<SpecToken> {
    spec_scan_body(s, 0).tokens.push(eof_token(s))
}

/// The lexical errors of a source text, in the order they are found.
pub open spec fn spec_diags(s: Seq<char>) -> Seq<SpecDiag> {
    spec_scan_body(s, 0).diags
}

/// The rendered diagnostic line of a lexical error.
pub open spec fn spec_render_diag(d: SpecDiag) -> Seq<char> {
    match d {
        SpecDiag::UnexpectedChar { line } => spec_report_line(
            line,
            Seq::empty(),
            "Unexpected character."@,
        ),
        SpecDiag::UnterminatedString { line } => spec_unterminated_line(line),
    }
}

/// The views of a sequence of produced tokens.
pub open spec fn token_views(ts: Seq<Token>) -> Seq<SpecToken> {
    ts.map_values(|t: Token| t@)
}

/// The rendered lines of an optional diagnostic.
pub open spec fn rendered_opt(o: Option<SpecDiag>) -> Seq<Seq<char>> {
    match o {
        Some(d) => seq![spec_render_diag(d)],
        None => Seq::empty(),
    }
}

/// The rendered lines of a sequence of diagnostics.
pub open spec fn rendered_diags(ds: Seq<SpecDiag>) -> Seq<Seq<char>> {
    ds.map_values(|d: SpecDiag| spec_render_diag(d))
}

// ---------------------------------------------------------------------------
// The scanner
// ---------------------------------------------------------------------------
/// A single-pass scanner over one source text. It is created from the text,
/// driven to completion once by `scan_tokens`, and then discarded.
pub struct Lexer {
    pub source: String,
    pub start: usize,
    pub current: usize,
    pub line: usize,
    pub tokens: Vec<Token>,
    pub error_reporter: ErrorReporter,
}

impl Lexer {
    /// The cursors stay inside the source. The length bound is a machine
    /// limit: the line counter never exceeds one more than a position.
    pub open spec fn wf(&self) -> bool {
        &&& self.start <= self.current <= self.source@.len()
        &&& self.source@.len() < usize::MAX
    }

    pub fn new(source: String) -> (r: Self)
        requires
            source@.len() < usize::MAX,
        ensures
            r.wf(),
            r.source == source,
            r.start == 0,
            r.current == 0,
            r.line == 1,
            r.tokens@.len() == 0,
            !r.error_reporter.had_error,
            !r.error_reporter.had_runtime_error,
            r.error_reporter.spec_lines() == Seq::<Seq<char>>::empty(),
    {
        Self {
            source,
            start: 0,
            current: 0,
            line: 1,
            tokens: Vec::new(),
            error_reporter: ErrorReporter::new(),
        }
    }

    /// Whether the scan reported a lexical error.
    pub fn had_error(&self) -> (r: bool)
        ensures
            r == self.error_reporter.had_error,
    {
        self.error_reporter.had_error
    }

    /// Whether a runtime error was reported through the attached reporter.
    pub fn had_runtime_error(&self) -> (r: bool)
        ensures
            r == self.error_reporter.had_runtime_error,
    {
        self.error_reporter.had_runtime_error
    }

    /// The rendered diagnostic lines recorded so far, for a driver to print.
    pub fn diagnostics(&self) -> (r: &Vec<String>)
        ensures
            r@.map_values(|s: String| s@) == self.error_reporter.spec_lines(),
    {
        &self.error_reporter.diagnostics
    }

    fn is_at_end(&self) -> (r: bool)
        ensures
            r == ((self.current as int) >= self.source@.len()),
    {
        self.current >= self.source.as_str().unicode_len()
    }

    fn advance(&mut self) -> (c: char)
        requires
            old(self).wf(),
            (old(self).current as int) < old(self).source@.len(),
        ensures
            final(self).source == old(self).source,
            final(self).start == old(self).start,
            final(self).line == old(self).line,
            final(self).tokens == old(self).tokens,
            final(self).error_reporter == old(self).error_reporter,
            final(self).current == old(self).current + 1,
            c == old(self).source@[old(self).current as int],
    {
        let c = self.source.as_str().get_char(self.current);
        self.current = self.current + 1;
        c
    }

    fn peek(&self) -> (c: char)
        requires
            self.wf(),
        ensures
            c == (if (self.current as int) < self.source@.len() {
                self.source@[self.current as int]
            } else {
                '\0'
            }),
    {
        if self.is_at_end() {
            '\0'
        } else {
            self.source.as_str().get_char(self.current)
        }
    }

    fn peek_next(&self) -> (c: char)
        requires
            self.wf(),
        ensures
            c == (if (self.current as int) + 1 < self.source@.len() {
                self.source@[self.current as int + 1]
            } else {
                '\0'
            }),
    {
        let n = self.source.as_str().unicode_len();
        if self.current + 1 >= n {
            '\0'
        } else {
            self.source.as_str().get_char(self.current + 1)
        }
    }

    fn match_char(&mut self, expected: char) -> (r: bool)
        requires
            old(self).wf(),
        ensures
            final(self).source == old(self).source,
            final(self).start == old(self).start,
            final(self).line == old(self).line,
            final(self).tokens == old(self).tokens,
            final(self).error_reporter == old(self).error_reporter,
            r == ((old(self).current as int) < old(self).source@.len() && old(self).source@[old(
                self,
            ).current as int] == expected),
            final(self).current == if r {
                old(self).current + 1
            } else {
                old(self).current as int
            },
    {
        if self.is_at_end() {
            return false;
        }
        if self.source.as_str().get_char(self.current) != expected {
            return false;
        }
        self.current = self.current + 1;
        true
    }

    fn make_token(&self, token_type: TokenType) -> (t: Token)
        requires
            self.wf(),
        ensures
            t@ == (SpecToken {
                kind: token_type@,
                lexeme: self.source@.subrange(self.start as int, self.current as int),
                line: self.line as nat,
            }),
    {
        let lexeme = self.source.as_str().substring_char(self.start, self.current).to_owned();
        Token { token_type, lexeme, line: self.line }
    }

    fn add_token(&mut self, token_type: TokenType)
        requires
            old(self).wf(),
        ensures
            final(self).source == old(self).source,
            final(self).start == old(self).start,
            final(self).current == old(self).current,
            final(self).line == old(self).line,
            final(self).error_reporter == old(self).error_reporter,
            token_views(final(self).tokens@) == token_views(old(self).tokens@).push(
                (SpecToken {
                    kind: token_type@,
                    lexeme: old(self).source@.subrange(
                        old(self).start as int,
                        old(self).current as int,
                    ),
                    line: old(self).line as nat,
                }),
            ),
    {
        let t = self.make_token(token_type);
        self.tokens.push(t);
        proof {
            assert(token_views(self.tokens@) =~= token_views(old(self).tokens@).push(t@));
        }
    }

    fn number(&mut self)
        requires
            old(self).wf(),
            old(self).current == old(self).start + 1,
            spec_is_digit(old(self).source@[old(self).start as int]),
        ensures
            final(self).wf(),
            final(self).source == old(self).source,
            final(self).start == old(self).start,
            final(self).line == old(self).line,
            final(self).error_reporter == old(self).error_reporter,
            ({
                let s = old(self).source@;
                let b = old(self).start as int;
                let e = number_end(s, b);
                &&& final(self).current as int == e
                &&& newlines_up_to(s, b) == newlines_up_to(s, e)
                &&& token_views(final(self).tokens@) == token_views(old(self).tokens@).push(
                    (SpecToken {
                        kind: SpecTokenKind::Number(s.subrange(b, e)),
                        lexeme: s.subrange(b, e),
                        line: old(self).line as nat,
                    }),
                )
            }),
    {
        let ghost s = self.source@;
        let ghost b = self.start as int;
        proof {
            lemma_digits_end(s, b);
        }
        while is_digit_char(self.peek())
            invariant
                self.wf(),
                self.source == old(self).source,
                self.source@ == s,
                self.start == old(self).start,
                self.line == old(self).line,
                self.tokens == old(self).tokens,
                self.error_reporter == old(self).error_reporter,
                b < self.current as int,
                digits_end(s, b) == digits_end(s, self.current as int),
            decreases s.len() - self.current,
        {
            self.advance();
        }
        proof {
            assert(digits_end(s, self.current as int) == self.current as int);
            assert(self.current as int == digits_end(s, b));
        }
        let ghost d = digits_end(s, b);
        if self.peek() == '.' && is_digit_char(self.peek_next()) {
            self.advance();
            proof {
                assert(self.current as int == d + 1);
                lemma_digits_end(s, d + 2);
            }
            while is_digit_char(self.peek())
                invariant
                    self.wf(),
                    self.source == old(self).source,
                self.source@ == s,
                    self.start == old(self).start,
                    self.line == old(self).line,
                    self.tokens == old(self).tokens,
                    self.error_reporter == old(self).error_reporter,
                    d < self.current as int,
                    digits_end(s, d + 2) == digits_end(s, self.current as int),
                decreases s.len() - self.current,
            {
                self.advance();
            }
            proof {
                assert(digits_end(s, self.current as int) == self.current as int);
                assert(self.current as int == number_end(s, b));
            }
        } else {
            proof {
                assert(self.current as int == number_end(s, b));
            }
        }
        let ghost e = number_end(s, b);
        proof {
            lemma_digits_end(s, b);
            if d + 1 < s.len() && s[d] == '.' && spec_is_digit(s[d + 1]) {
                lemma_digits_end(s, d + 2);
            }
            assert forall|k: int| b <= k < e implies s[k] != '\n' by {
                if k < d {
                    assert(spec_is_digit(s[k]));
                } else if k == d {
                    assert(s[k] == '.');
                } else {
                    assert(spec_is_digit(s[k]));
                }
            }
            lemma_newlines_same(s, b, e);
        }
        let text = self.source.as_str().substring_char(self.start, self.current).to_owned();
        let payload = text.clone();
        let line = self.line;
        self.tokens.push(Token { token_type: TokenType::Number(payload), lexeme: text, line });
        proof {
            assert(token_views(self.tokens@) =~= token_views(old(self).tokens@).push(
                (SpecToken {
                    kind: SpecTokenKind::Number(s.subrange(b, e)),
                    lexeme: s.subrange(b, e),
                    line: old(self).line as nat,
                }),
            ));
        }
    }

    fn identifier(&mut self)
        requires
            old(self).wf(),
            old(self).current == old(self).start + 1,
            spec_is_alpha(old(self).source@[old(self).start as int]),
        ensures
            final(self).wf(),
            final(self).source == old(self).source,
            final(self).start == old(self).start,
            final(self).line == old(self).line,
            final(self).error_reporter == old(self).error_reporter,
            ({
                let s = old(self).source@;
                let b = old(self).start as int;
                let e = ident_end(s, b);
                let text = s.subrange(b, e);
                let kind = match spec_keyword(text) {
                    Some(k) => k,
                    None => SpecTokenKind::Identifier(text),
                };
                &&& final(self).current as int == e
                &&& newlines_up_to(s, b) == newlines_up_to(s, e)
                &&& token_views(final(self).tokens@) == token_views(old(self).tokens@).push(
                    (SpecToken { kind, lexeme: text, line: old(self).line as nat }),
                )
            }),
    {
        let ghost s = self.source@;
        let ghost b = self.start as int;
        while is_alnum_char(self.peek())
            invariant
                self.wf(),
                self.source == old(self).source,
                self.source@ == s,
                self.start == old(self).start,
                self.line == old(self).line,
                self.tokens == old(self).tokens,
                self.error_reporter == old(self).error_reporter,
                b < self.current as int,
                ident_end(s, b) == ident_end(s, self.current as int),
            decreases s.len() - self.current,
        {
            self.advance();
        }
        let ghost e = ident_end(s, b);
        proof {
            assert(ident_end(s, self.current as int) == self.current as int);
            assert(self.current as int == e);
            lemma_ident_end(s, b);
            assert forall|k: int| b <= k < e implies s[k] != '\n' by {
                assert(spec_is_alnum(s[k]));
            }
            lemma_newlines_same(s, b, e);
        }
        let text = self.source.as_str().substring_char(self.start, self.current).to_owned();
        match keyword_kind(text.as_str()) {
            Some(k) => self.add_token(k),
            None => self.add_token(TokenType::Identifier(text)),
        }
    }

    fn string(&mut self)
        requires
            old(self).wf(),
            old(self).current == old(self).start + 1,
            old(self).source@[old(self).start as int] == '"',
            old(self).line as nat == line_of(old(self).source@, old(self).current as int),
        ensures
            final(self).wf(),
            final(self).source == old(self).source,
            final(self).start == old(self).start,
            final(self).error_reporter.had_runtime_error == old(
                self,
            ).error_reporter.had_runtime_error,
            ({
                let s = old(self).source@;
                let b = old(self).start as int;
                let close = string_close(s, b + 1);
                if close < s.len() {
                    &&& final(self).current as int == close + 1
                    &&& final(self).line as nat == line_of(s, close + 1)
                    &&& final(self).error_reporter == old(self).error_reporter
                    &&& token_views(final(self).tokens@) == token_views(old(self).tokens@).push(
                        (SpecToken {
                            kind: SpecTokenKind::StrLit(s.subrange(b + 1, close)),
                            lexeme: s.subrange(b, close + 1),
                            line: line_of(s, close + 1),
                        }),
                    )
                } else {
                    &&& final(self).current as int == s.len()
                    &&& final(self).line as nat == line_of(s, s.len() as int)
                    &&& final(self).tokens == old(self).tokens
                    &&& final(self).error_reporter.had_error
                    &&& final(self).error_reporter.spec_lines() == old(
                        self,
                    ).error_reporter.spec_lines().push(
                        spec_unterminated_line(line_of(s, s.len() as int)),
                    )
                }
            }),
    {
        let ghost s = self.source@;
        let ghost b = self.start as int;
        loop
            invariant
                self.wf(),
                self.source == old(self).source,
                self.source@ == s,
                self.start == old(self).start,
                self.tokens == old(self).tokens,
                self.error_reporter == old(self).error_reporter,
                b < self.current as int,
                self.line as nat == line_of(s, self.current as int),
                string_close(s, b + 1) == string_close(s, self.current as int),
            ensures
                self.wf(),
                self.source == old(self).source,
                self.source@ == s,
                self.start == old(self).start,
                self.tokens == old(self).tokens,
                self.error_reporter == old(self).error_reporter,
                b < self.current as int,
                self.line as nat == line_of(s, self.current as int),
                string_close(s, b + 1) == string_close(s, self.current as int),
                (self.current as int) >= s.len() || s[self.current as int] == '"',
            decreases s.len() - self.current,
        {
            let c = self.peek();
            if c == '"' || self.is_at_end() {
                break;
            }
            if c == '\n' {
                proof {
                    lemma_newlines_le(s, 0, self.current as int);
                }
                self.line = self.line + 1;
            }
            self.advance();
        }
        if self.is_at_end() {
            proof {
                assert(string_close(s, self.current as int) == s.len());
            }
            let line = self.line;
            self.error_reporter.unterminated_string(line);
            return;
        }
        proof {
            assert(s[self.current as int] == '"');
            assert(string_close(s, self.current as int) == self.current as int);
        }
        self.advance();
        let ghost close = string_close(s, b + 1);
        let value = self.source.as_str().substring_char(self.start + 1, self.current - 1).to_owned();
        let lexeme = self.source.as_str().substring_char(self.start, self.current).to_owned();
        let line = self.line;
        self.tokens.push(Token { token_type: TokenType::StrLit(value), lexeme, line });
        proof {
            assert(token_views(self.tokens@) =~= token_views(old(self).tokens@).push(
                (SpecToken {
                    kind: SpecTokenKind::StrLit(s.subrange(b + 1, close)),
                    lexeme: s.subrange(b, close + 1),
                    line: line_of(s, close + 1),
                }),
            ));
        }
    }

    /// Classifies and consumes exactly one token, or absorbs one whitespace
    /// character, a comment, or one erroneous character, exactly as the
    /// dispatch `spec_step` says.
    fn scan_token(&mut self)
        requires
            old(self).wf(),
            old(self).start == old(self).current,
            (old(self).current as int) < old(self).source@.len(),
            old(self).line as nat == line_of(old(self).source@, old(self).current as int),
        ensures
            final(self).wf(),
            final(self).source == old(self).source,
            final(self).start == old(self).start,
            ({
                let st = spec_step(old(self).source@, old(self).current as int);
                &&& final(self).current as int == st.end
                &&& final(self).line as nat == line_of(old(self).source@, st.end)
                &&& token_views(final(self).tokens@) == token_views(old(self).tokens@) + opt_seq(
                    st.token,
                )
                &&& final(self).error_reporter.spec_lines() == old(
                    self,
                ).error_reporter.spec_lines() + rendered_opt(st.diag)
                &&& final(self).error_reporter.had_error == (old(self).error_reporter.had_error
                    || st.diag is Some)
                &&& final(self).error_reporter.had_runtime_error == old(
                    self,
                ).error_reporter.had_runtime_error
            }),
    {
        let ghost s = old(self).source@;
        let ghost i = old(self).current as int;
        let c = self.advance();
        match c {
            '(' => {
                self.add_token(TokenType::LeftParen);
                proof {
                    self.lemma_one_token_glue(*old(self), s, i);
                }
            },
            ')' => {
                self.add_token(TokenType::RightParen);
                proof {
                    self.lemma_one_token_glue(*old(self), s, i);
                }
            },
            '{' => {
                self.add_token(TokenType::LeftBrace);
                proof {
                    self.lemma_one_token_glue(*old(self), s, i);
                }
            },
            '}' => {
                self.add_token(TokenType::RightBrace);
                proof {
                    self.lemma_one_token_glue(*old(self), s, i);
                }
            },
            ',' => {
                self.add_token(TokenType::Comma);
                proof {
                    self.lemma_one_token_glue(*old(self), s, i);
                }
            },
            '.' => {
                self.add_token(TokenType::Dot);
                proof {
                    self.lemma_one_token_glue(*old(self), s, i);
                }
            },
            '-' => {
                self.add_token(TokenType::Minus);
                proof {
                    self.lemma_one_token_glue(*old(self), s, i);
                }
            },
            '+' => {
                self.add_token(TokenType::Plus);
                proof {
                    self.lemma_one_token_glue(*old(self), s, i);
                }
            },
            ';' => {
                self.add_token(TokenType::Semicolon);
                proof {
                    self.lemma_one_token_glue(*old(self), s, i);
                }
            },
            '*' => {
                self.add_token(TokenType::Star);
                proof {
                    self.lemma_one_token_glue(*old(self), s, i);
                }
            },
            '!' => {
                if self.match_char('=') {
                    self.add_token(TokenType::BangEqual);
                } else {
                    self.add_token(TokenType::Bang);
                }
                proof {
                    self.lemma_one_token_glue(*old(self), s, i);
                }
            },
            '=' => {
                if self.match_char('=') {
                    self.add_token(TokenType::EqualEqual);
                } else {
                    self.add_token(TokenType::Equal);
                }
                proof {
                    self.lemma_one_token_glue(*old(self), s, i);
                }
            },
            '<' => {
                if self.match_char('=') {
                    self.add_token(TokenType::LessEqual);
                } else {
                    self.add_token(TokenType::Less);
                }
                proof {
                    self.lemma_one_token_glue(*old(self), s, i);
                }
            },
            '>' => {
                if self.match_char('=') {
                    self.add_token(TokenType::GreaterEqual);
                } else {
                    self.add_token(TokenType::Greater);
                }
                proof {
                    self.lemma_one_token_glue(*old(self), s, i);
                }
            },
            '/' => {
                if self.match_char('/') {
                    loop
                        invariant
                            self.wf(),
                            self.source == old(self).source,
                            self.source@ == s,
                            self.start == old(self).start,
                            self.line == old(self).line,
                            self.tokens == old(self).tokens,
                            self.error_reporter == old(self).error_reporter,
                            i + 2 <= self.current as int,
                            comment_end(s, i + 2) == comment_end(s, self.current as int),
                            self.line as nat == line_of(s, self.current as int),
                        ensures
                            self.wf(),
                            self.source == old(self).source,
                            self.source@ == s,
                            self.start == old(self).start,
                            self.line == old(self).line,
                            self.tokens == old(self).tokens,
                            self.error_reporter == old(self).error_reporter,
                            self.current as int == comment_end(s, i + 2),
                            self.line as nat == line_of(s, self.current as int),
                        decreases s.len() - self.current,
                    {
                        let ch = self.peek();
                        if ch == '\n' {
                            proof {
                                assert(comment_end(s, self.current as int) == self.current as int);
                            }
                            break;
                        }
                        if self.is_at_end() {
                            proof {
                                assert(comment_end(s, self.current as int) == self.current as int);
                            }
                            break;
                        }
                        self.advance();
                    }
                    proof {
                        let st = spec_step(s, i);
                        assert(token_views(self.tokens@) =~= token_views(old(self).tokens@)
                            + opt_seq(st.token));
                        assert(self.error_reporter.spec_lines() =~= old(
                            self,
                        ).error_reporter.spec_lines() + rendered_opt(st.diag));
                    }
                } else {
                    self.add_token(TokenType::Slash);
                    proof {
                        self.lemma_one_token_glue(*old(self), s, i);
                    }
                }
            },
            ' ' | '\r' | '\t' => {
                proof {
                    self.lemma_skip_glue(*old(self), s, i);
                }
            },
            '\n' => {
                proof {
                    lemma_newlines_le(s, 0, i);
                }
                self.line = self.line + 1;
                proof {
                    self.lemma_skip_glue(*old(self), s, i);
                }
            },
            '"' => {
                self.string();
                proof {
                    let st = spec_step(s, i);
                    let close = string_close(s, i + 1);
                    lemma_string_close(s, i + 1);
                    if close < s.len() {
                        assert(token_views(self.tokens@) =~= token_views(old(self).tokens@)
                            + opt_seq(st.token));
                        assert(self.error_reporter.spec_lines() =~= old(
                            self,
                        ).error_reporter.spec_lines() + rendered_opt(st.diag));
                    } else {
                        assert(token_views(self.tokens@) =~= token_views(old(self).tokens@)
                            + opt_seq(st.token));
                        assert(self.error_reporter.spec_lines() =~= old(
                            self,
                        ).error_reporter.spec_lines() + rendered_opt(st.diag));
                    }
                }
            },
            other => {
                if is_digit_char(other) {
                    self.number();
                    proof {
                        let st = spec_step(s, i);
                        assert(token_views(self.tokens@) =~= token_views(old(self).tokens@)
                            + opt_seq(st.token));
                        assert(self.error_reporter.spec_lines() =~= old(
                            self,
                        ).error_reporter.spec_lines() + rendered_opt(st.diag));
                    }
                } else if is_alpha_char(other) {
                    self.identifier();
                    proof {
                        let st = spec_step(s, i);
                        assert(token_views(self.tokens@) =~= token_views(old(self).tokens@)
                            + opt_seq(st.token));
                        assert(self.error_reporter.spec_lines() =~= old(
                            self,
                        ).error_reporter.spec_lines() + rendered_opt(st.diag));
                    }
                } else {
                    let line = self.line;
                    self.error_reporter.error(line, "Unexpected character.");
                    proof {
                        let st = spec_step(s, i);
                        assert(token_views(self.tokens@) =~= token_views(old(self).tokens@)
                            + opt_seq(st.token));
                        assert(self.error_reporter.spec_lines() =~= old(
                            self,
                        ).error_reporter.spec_lines() + rendered_opt(st.diag));
                    }
                }
            },
        }
    }

    /// Scans the whole source: the resulting tokens are exactly what the
    /// specification scanner produces, ending in the end-of-input marker; the
    /// reporter holds the rendered diagnostic line of every lexical error, in
    /// order, and its flag says whether there was one. A scanner is driven to
    /// completion once, on the fresh state that `new` established.
    pub fn scan_tokens(&mut self) -> (tokens: Vec<Token>)
        requires
            old(self).wf(),
            old(self).current == 0,
            old(self).line == 1,
            old(self).tokens@.len() == 0,
            !old(self).error_reporter.had_error,
            !old(self).error_reporter.had_runtime_error,
            old(self).error_reporter.spec_lines() == Seq::<Seq<char>>::empty(),
        ensures
            final(self).source == old(self).source,
            token_views(tokens@) == spec_tokens(old(self).source@),
            tokens@ == final(self).tokens@,
            final(self).error_reporter.spec_lines() == rendered_diags(
                spec_diags(old(self).source@),
            ),
            final(self).error_reporter.had_error == (spec_diags(old(self).source@).len() > 0),
            !final(self).error_reporter.had_runtime_error,
            final(self).line as nat == line_of(
                old(self).source@,
                old(self).source@.len() as int,
            ),
    {
        let ghost src = old(self).source@;
        proof {
            assert(token_views(old(self).tokens@) =~= Seq::<SpecToken>::empty());
        }
        loop
            invariant
                self.wf(),
                self.source == old(self).source,
                self.source@ == src,
                self.line as nat == line_of(src, self.current as int),
                !self.error_reporter.had_runtime_error,
                self.error_reporter.had_error == (self.error_reporter.spec_lines().len() > 0),
                spec_scan_body(src, 0).tokens == token_views(self.tokens@) + spec_scan_body(
                    src,
                    self.current as int,
                ).tokens,
                rendered_diags(spec_scan_body(src, 0).diags)
                    == self.error_reporter.spec_lines() + rendered_diags(
                    spec_scan_body(src, self.current as int).diags,
                ),
            ensures
                self.wf(),
                self.source == old(self).source,
                self.source@ == src,
                self.line as nat == line_of(src, self.current as int),
                !self.error_reporter.had_runtime_error,
                self.error_reporter.had_error == (self.error_reporter.spec_lines().len() > 0),
                spec_scan_body(src, 0).tokens == token_views(self.tokens@) + spec_scan_body(
                    src,
                    self.current as int,
                ).tokens,
                rendered_diags(spec_scan_body(src, 0).diags)
                    == self.error_reporter.spec_lines() + rendered_diags(
                    spec_scan_body(src, self.current as int).diags,
                ),
                self.current as int == src.len(),
            decreases src.len() - self.current,
        {
            if self.is_at_end() {
                break;
            }
            self.start = self.current;
            let ghost prev = self.current as int;
            let ghost pre_tokens = self.tokens@;
            let ghost pre_lines = self.error_reporter.spec_lines();
            self.scan_token();
            proof {
                let st = spec_step(src, prev);
                lemma_step_bounds(src, prev);
                assert(spec_scan_body(src, prev).tokens == opt_seq(st.token) + spec_scan_body(
                    src,
                    st.end,
                ).tokens);
                assert((token_views(pre_tokens) + opt_seq(st.token)) + spec_scan_body(
                    src,
                    st.end,
                ).tokens =~= token_views(pre_tokens) + (opt_seq(st.token) + spec_scan_body(
                    src,
                    st.end,
                ).tokens));
                assert(rendered_diags(opt_seq(st.diag) + spec_scan_body(src, st.end).diags)
                    =~= rendered_opt(st.diag) + rendered_diags(spec_scan_body(src, st.end).diags));
                assert((pre_lines + rendered_opt(st.diag)) + rendered_diags(
                    spec_scan_body(src, st.end).diags,
                ) =~= pre_lines + (rendered_opt(st.diag) + rendered_diags(
                    spec_scan_body(src, st.end).diags,
                )));
            }
        }
        proof {
            assert(spec_scan_body(src, src.len() as int).tokens == Seq::<SpecToken>::empty());
            assert(token_views(self.tokens@) + Seq::<SpecToken>::empty() =~= token_views(
                self.tokens@,
            ));
            assert(self.error_reporter.spec_lines() + rendered_diags(
                Seq::<SpecDiag>::empty(),
            ) =~= self.error_reporter.spec_lines());
            assert(rendered_diags(Seq::<SpecDiag>::empty()) =~= Seq::<Seq<char>>::empty());
        }
        let line = self.line;
        self.tokens.push(Token { token_type: TokenType::Eof, lexeme: String::new(), line });
        proof {
            assert(token_views(self.tokens@) =~= spec_scan_body(src, 0).tokens.push(
                eof_token(src),
            ));
        }
        let out = self.tokens.clone();
        proof {
            assert forall|k: int| 0 <= k < self.tokens@.len() implies out@[k]
                == self.tokens@[k] by {
                assert(cloned::<Token>(self.tokens@[k], out@[k]));
            }
            assert(out@ =~= self.tokens@);
        }
        out
    }

    /// Glue for the dispatch arms that emit one token whose span holds no
    /// newline: the pushed view is the step's token.
    proof fn lemma_one_token_glue(&self, pre: Lexer, s: Seq<char>, i: int)
        requires
            0 <= i < s.len(),
            pre.source@ == s,
            pre.start == i,
            pre.current == i,
            pre.line as nat == line_of(s, i),
            spec_step(s, i).token is Some,
            s[i] != '\n',
            self.current as int == spec_step(s, i).end,
            spec_step(s, i).end == i + 1 || (spec_step(s, i).end == i + 2 && i + 1 < s.len() && s[
                i + 1
            ] == '='),
            token_views(self.tokens@) == token_views(pre.tokens@).push(
                (SpecToken {
                    kind: spec_step(s, i).token.unwrap().kind,
                    lexeme: s.subrange(i, spec_step(s, i).end),
                    line: pre.line as nat,
                }),
            ),
            self.error_reporter == pre.error_reporter,
        ensures
            token_views(self.tokens@) == token_views(pre.tokens@) + opt_seq(
                spec_step(s, i).token,
            ),
            self.error_reporter.spec_lines() == pre.error_reporter.spec_lines() + rendered_opt(
                spec_step(s, i).diag,
            ),
    {
        let st = spec_step(s, i);
        assert(newlines_up_to(s, i + 1) == newlines_up_to(s, i));
        if st.end == i + 2 {
            assert(s[i + 1] != '\n');
            assert(newlines_up_to(s, i + 2) == newlines_up_to(s, i + 1));
        }
        assert(line_of(s, st.end) == line_of(s, i));
        assert(token_views(self.tokens@) =~= token_views(pre.tokens@) + opt_seq(st.token));
        assert(self.error_reporter.spec_lines() =~= pre.error_reporter.spec_lines()
            + rendered_opt(st.diag));
    }

    /// Glue for the dispatch arms that absorb a character and emit nothing.
    proof fn lemma_skip_glue(&self, pre: Lexer, s: Seq<char>, i: int)
        requires
            0 <= i < s.len(),
            spec_step(s, i).token is None,
            spec_step(s, i).diag is None,
            self.tokens == pre.tokens,
            self.error_reporter == pre.error_reporter,
        ensures
            token_views(self.tokens@) == token_views(pre.tokens@) + opt_seq(
                spec_step(s, i).token,
            ),
            self.error_reporter.spec_lines() == pre.error_reporter.spec_lines() + rendered_opt(
                spec_step(s, i).diag,
            ),
    {
        let st = spec_step(s, i);
        assert(token_views(self.tokens@) =~= token_views(pre.tokens@) + opt_seq(st.token));
        assert(self.error_reporter.spec_lines() =~= pre.error_reporter.spec_lines()
            + rendered_opt(st.diag));
    }
}

} // verus!
