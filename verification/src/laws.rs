use vstd::prelude::*;

use crate::lexer::{
    comment_end, eof_token, ident_end, lemma_comment_end, lemma_ident_end, lemma_step_bounds,
    line_of, newlines_up_to, spec_is_alnum, spec_is_alpha, spec_scan_body, spec_step, spec_tokens,
};
use crate::token::{SpecToken, SpecTokenKind};

verus! {

// ---------------------------------------------------------------------------
// The token sequence always ends in the end-of-input marker
// ---------------------------------------------------------------------------
/// For every source text the produced token sequence is non-empty, and its
/// last element is the end-of-input marker, with an empty lexeme, on the
/// final line of the source.
pub proof fn lemma_ends_with_eof(s: Seq<char>)
    ensures
        spec_tokens(s).len() > 0,
        spec_tokens(s).last() == eof_token(s),
        spec_tokens(s).last().kind == SpecTokenKind::Eof,
        spec_tokens(s).last().lexeme.len() == 0,
        spec_tokens(s).last().line == line_of(s, s.len() as int),
{
}

// ---------------------------------------------------------------------------
// Blank sources produce only the end-of-input marker
// ---------------------------------------------------------------------------
/// The tail of the source from `i` on holds only whitespace and comments.
pub open spec fn spec_blank(s: Seq<char>, i: int) -> bool
    decreases s.len() - i,
    via spec_blank_decreases
{
    if 0 <= i < s.len() {
        if s[i] == ' ' || s[i] == '\r' || s[i] == '\t' || s[i] == '\n' {
            spec_blank(s, i + 1)
        } else if s[i] == '/' && i + 1 < s.len() && s[i + 1] == '/' {
            spec_blank(s, comment_end(s, i + 2))
        } else {
            false
        }
    } else {
        true
    }
}

#[via_fn]
proof fn spec_blank_decreases(s: Seq<char>, i: int) {
    if 0 <= i < s.len() && i + 1 < s.len() && s[i + 1] == '/' {
        lemma_comment_end(s, i + 2);
    }
}

proof fn lemma_blank_body(s: Seq<char>, i: int)
    requires
        0 <= i <= s.len(),
        spec_blank(s, i),
    ensures
        spec_scan_body(s, i).tokens.len() == 0,
    decreases s.len() - i,
{
    if i < s.len() {
        let st = spec_step(s, i);
        lemma_step_bounds(s, i);
        if s[i] == ' ' || s[i] == '\r' || s[i] == '\t' || s[i] == '\n' {
            lemma_blank_body(s, i + 1);
        } else {
            lemma_comment_end(s, i + 2);
            lemma_blank_body(s, comment_end(s, i + 2));
        }
    }
}

/// A source text holding only whitespace and comments scans to exactly one
/// token: the end-of-input marker.
pub proof fn lemma_blank_scans_to_eof_alone(s: Seq<char>)
    requires
        spec_blank(s, 0),
    ensures
        spec_tokens(s).len() == 1,
        spec_tokens(s)[0] == eof_token(s),
{
    lemma_blank_body(s, 0);
}

// ---------------------------------------------------------------------------
// Line numbers count the newlines before a token's end
// ---------------------------------------------------------------------------
/// The line recorded on any produced token equals 1 plus the number of
/// newline characters of the source that precede the token's end; the same
/// holds of the end-of-input marker at the end of the source.
pub proof fn lemma_token_line(s: Seq<char>, i: int)
    requires
        0 <= i < s.len(),
        spec_step(s, i).token is Some,
    ensures
        spec_step(s, i).token.unwrap().line == 1 + newlines_up_to(s, spec_step(s, i).end),
        eof_token(s).line == 1 + newlines_up_to(s, s.len() as int),
{
}

// ---------------------------------------------------------------------------
// Round trip: non-literal tokens re-scan to their own kind
// ---------------------------------------------------------------------------
/// A kind that carries a decoded payload.
pub open spec fn is_literal_kind(k: SpecTokenKind) -> bool {
    match k {
        SpecTokenKind::Number(_) => true,
        SpecTokenKind::StrLit(_) => true,
        SpecTokenKind::Identifier(_) => true,
        _ => false,
    }
}

/// Scanning the token's own lexeme as a whole source yields a first token of
/// the same kind.
pub open spec fn rescans_to_same_kind(t: SpecToken) -> bool {
    spec_tokens(t.lexeme).len() > 0 && spec_tokens(t.lexeme)[0].kind == t.kind
}

proof fn lemma_ident_end_all(l: Seq<char>, j: int)
    requires
        0 <= j <= l.len(),
        forall|k: int| j <= k < l.len() ==> spec_is_alnum(#[trigger] l[k]),
    ensures
        ident_end(l, j) == l.len(),
    decreases l.len() - j,
{
    if j < l.len() {
        lemma_ident_end_all(l, j + 1);
    }
}

proof fn lemma_step_round_trip(s: Seq<char>, i: int)
    requires
        0 <= i < s.len(),
        spec_step(s, i).token is Some,
        !is_literal_kind(spec_step(s, i).token.unwrap().kind),
    ensures
        rescans_to_same_kind(spec_step(s, i).token.unwrap()),
{
    let c = s[i];
    let st = spec_step(s, i);
    let t = st.token.unwrap();
    let l = t.lexeme;
    lemma_step_bounds(s, i);
    if spec_is_alpha(c) {
        // a keyword: its lexeme is a run of identifier characters, so the
        // re-scan consumes it whole and looks it up again
        lemma_ident_end(s, i);
        let e = ident_end(s, i);
        assert(forall|k: int| 0 <= k < l.len() ==> spec_is_alnum(#[trigger] l[k]));
        lemma_ident_end_all(l, 0);
        assert(ident_end(l, 0) == l.len());
        assert(l.subrange(0, l.len() as int) =~= l);
        assert(spec_step(l, 0).token.unwrap().kind == t.kind);
        assert(spec_scan_body(l, ident_end(l, 0)).tokens =~= Seq::<SpecToken>::empty());
        assert(spec_tokens(l)[0].kind == t.kind);
    } else if st.end == i + 2 {
        // a two-character operator: its lexeme is the operator again
        assert(l.len() == 2);
        assert(l[0] == c && l[1] == '=');
        assert(spec_step(l, 0).token.unwrap().kind == t.kind);
        assert(spec_tokens(l)[0].kind == t.kind);
    } else {
        // a single-character token; `/` re-scans as division because the
        // lexeme holds no second `/`
        assert(l.len() == 1);
        assert(l[0] == c);
        assert(spec_step(l, 0).token.unwrap().kind == t.kind);
        assert(spec_tokens(l)[0].kind == t.kind);
    }
}

proof fn lemma_body_round_trip(s: Seq<char>, i: int)
    requires
        0 <= i <= s.len(),
    ensures
        forall|j: int|
            0 <= j < spec_scan_body(s, i).tokens.len() && !is_literal_kind(
                #[trigger] spec_scan_body(s, i).tokens[j].kind,
            ) ==> rescans_to_same_kind(spec_scan_body(s, i).tokens[j]),
    decreases s.len() - i,
{
    if i < s.len() {
        let st = spec_step(s, i);
        lemma_step_bounds(s, i);
        lemma_body_round_trip(s, st.end);
        let toks = spec_scan_body(s, i).tokens;
        let rest = spec_scan_body(s, st.end).tokens;
        assert forall|j: int|
            0 <= j < toks.len() && !is_literal_kind(#[trigger] toks[j].kind) implies
            rescans_to_same_kind(toks[j]) by {
            match st.token {
                Some(t) => {
                    if j == 0 {
                        assert(toks[0] == t);
                        lemma_step_round_trip(s, i);
                    } else {
                        assert(toks[j] == rest[j - 1]);
                    }
                },
                None => {
                    assert(toks[j] == rest[j]);
                },
            }
        }
    }
}

/// Round trip: every non-literal token of a scan, the end-of-input marker
/// included, re-scans from its own recorded lexeme to the same token kind.
pub proof fn lemma_round_trip(s: Seq<char>)
    ensures
        forall|j: int|
            0 <= j < spec_tokens(s).len() && !is_literal_kind(
                #[trigger] spec_tokens(s)[j].kind,
            ) ==> rescans_to_same_kind(spec_tokens(s)[j]),
{
    lemma_body_round_trip(s, 0);
    let toks = spec_tokens(s);
    let body = spec_scan_body(s, 0).tokens;
    assert(spec_tokens(eof_token(s).lexeme).len() == 1);
    assert(rescans_to_same_kind(eof_token(s)));
    assert forall|j: int|
        0 <= j < toks.len() && !is_literal_kind(#[trigger] toks[j].kind) implies
        rescans_to_same_kind(toks[j]) by {
        if j < body.len() {
            assert(toks[j] == body[j]);
        } else {
            assert(toks[j] == eof_token(s));
        }
    }
}

} // verus!
