use crate::ast::{
    default_part,
    end_span,
    literal_at,
    options_part,
    parse_comment_spec,
    parse_document,
    parse_list,
    parse_options_spec,
    parse_variable_spec,
    type_part,
    unexpected_at,
    OptionsView,
};
use crate::program::parse_source;
use crate::span::Span;
use crate::tokenizer::{
    is_digit,
    is_keyword_start,
    is_space,
    keyword_end,
    lemma_line_end_bounds,
    number_end,
    scan_token,
    spaces_end,
    string_close,
    tokens_from,
    TokenKind,
    TokenView,
};
use vstd::prelude::*;

verus! {

/// Whether `sp` is an ordered span that ends by position `n`.
pub open spec fn span_in(sp: Span, n: int) -> bool {
    sp.start <= sp.end && sp.end <= n
}

pub open spec fn tokens_in(t: Seq<TokenView>, n: int) -> bool {
    forall|k: int| 0 <= k < t.len() ==> span_in(#[trigger] t[k].span, n)
}

/// Each token ends before the next one starts.
pub open spec fn tokens_ordered(t: Seq<TokenView>) -> bool {
    forall|a: int, b: int| 0 <= a < b < t.len() ==> #[trigger] t[a].span.end <= #[trigger] t[b].span.start
}

proof fn lemma_spaces_end(s: Seq<char>, i: int)
    requires
        0 <= i <= s.len(),
    ensures
        i <= spaces_end(s, i) <= s.len(),
    decreases s.len() - i,
{
    if i < s.len() && is_space(s[i]) {
        lemma_spaces_end(s, i + 1);
    }
}

proof fn lemma_keyword_end(s: Seq<char>, i: int)
    requires
        0 <= i <= s.len(),
    ensures
        i <= keyword_end(s, i) <= s.len(),
    decreases s.len() - i,
{
    if i < s.len() && crate::tokenizer::is_keyword_char(s[i]) {
        lemma_keyword_end(s, i + 1);
    }
}

proof fn lemma_string_close(s: Seq<char>, j: int)
    requires
        0 <= j,
    ensures
        string_close(s, j) matches Some(e) ==> j <= e < s.len(),
    decreases s.len() + 2 - j,
{
    if 0 <= j < s.len() {
        if s[j] == '\\' {
            lemma_string_close(s, j + 2);
        } else if s[j] != '"' {
            lemma_string_close(s, j + 1);
        }
    }
}

proof fn lemma_number_end(s: Seq<char>, j: int, decimal: bool)
    requires
        0 <= j <= s.len(),
    ensures
        match number_end(s, j, decimal) {
            Ok(e) => j <= e <= s.len(),
            Err((_, k)) => j <= k < s.len(),
        },
    decreases s.len() - j,
{
    if j < s.len() {
        if is_digit(s[j]) || s[j] == '_' {
            lemma_number_end(s, j + 1, decimal);
        } else if s[j] == '.' {
            lemma_number_end(s, j + 1, true);
        }
    }
}

/// A token scanned at `i` ends after `i` and inside the text; a scan error lies inside it.
proof fn lemma_scan_bounds(s: Seq<char>, i: int)
    requires
        0 <= i < s.len(),
        s.len() <= usize::MAX,
    ensures
        match scan_token(s, i) {
            Ok((t, j)) => i < j <= s.len() && span_in(t.span, s.len() as int) && i <= t.span.start
                && t.span.end <= j,
            Err(e) => span_in(e.span, s.len() as int),
        },
{
    lemma_line_end_bounds(s, i + 1);
    lemma_spaces_end(s, i);
    lemma_keyword_end(s, i);
    lemma_string_close(s, i + 1);
    lemma_number_end(s, i, false);
    if is_digit(s[i]) && !(s[i] == '#' || s[i] == '\n' || is_space(s[i]) || s[i] == ':' || s[i]
        == '=' || s[i] == '"' || is_keyword_start(s[i])) {
        lemma_number_end(s, i + 1, false);
    }
    if is_space(s[i]) {
        lemma_spaces_end(s, i + 1);
    }
    if is_keyword_start(s[i]) {
        lemma_keyword_end(s, i + 1);
    }
}

/// Every token of a text, and every tokenizer error, lies inside the text.
pub proof fn lemma_tokens_bounds(s: Seq<char>, i: int)
    requires
        0 <= i <= s.len(),
        s.len() <= usize::MAX,
    ensures
        match tokens_from(s, i) {
            Ok(t) => tokens_in(t, s.len() as int) && tokens_ordered(t) && forall|k: int|
                0 <= k < t.len() ==> i <= #[trigger] t[k].span.start,
            Err(e) => span_in(e.span, s.len() as int),
        },
    decreases s.len() - i,
{
    if i < s.len() {
        lemma_scan_bounds(s, i);
        if let Ok((t, j)) = scan_token(s, i) {
            lemma_tokens_bounds(s, j);
            if let Ok(rest) = tokens_from(s, j) {
                let all = seq![t] + rest;
                assert forall|a: int, b: int| 0 <= a < b < all.len() implies #[trigger] all[a].span.end
                    <= #[trigger] all[b].span.start by {
                    if a == 0 {
                        assert(all[b] == rest[b - 1]);
                        assert(j <= rest[b - 1].span.start);
                    } else {
                        assert(all[a] == rest[a - 1]);
                        assert(all[b] == rest[b - 1]);
                    }
                }
                assert forall|k: int| 0 <= k < all.len() implies i <= #[trigger] all[k].span.start by {
                    if k > 0 {
                        assert(all[k] == rest[k - 1]);
                    }
                }
                assert forall|k: int| 0 <= k < all.len() implies span_in(
                    #[trigger] all[k].span,
                    s.len() as int,
                ) by {
                    if k > 0 {
                        assert(all[k] == rest[k - 1]);
                    }
                }
            }
        }
    }
}

proof fn lemma_end_span(t: Seq<TokenView>, n: int)
    requires
        tokens_in(t, n),
        0 <= n,
    ensures
        span_in(end_span(t), n),
{
    if t.len() > 0 {
        assert(span_in(t[t.len() - 1].span, n));
    }
}

proof fn lemma_options_errors(t: Seq<TokenView>, i: int, acc: OptionsView, n: int)
    requires
        tokens_in(t, n),
        0 <= n,
    ensures
        parse_options_spec(t, i, acc) matches Err(e) ==> span_in(e.span, n),
    decreases t.len() - i,
{
    lemma_end_span(t, n);
    if crate::ast::has_kind(t, i, TokenKind::Keyword) {
        let key = t[i].raw;
        let j = crate::ast::skip_kinds(t, i + 1, crate::ast::blanks());
        if crate::ast::has_kind(t, j, TokenKind::Equal) {
            let k = crate::ast::skip_kinds(t, j + 1, crate::ast::spaces());
            if 0 <= k < t.len() {
                assert(span_in(t[k].span, n));
            }
            if let Ok(lit) = literal_at(t, k) {
                let m = crate::ast::skip_kinds(t, k + 1, crate::ast::blanks());
                if i < m <= t.len() {
                    lemma_options_errors(t, m, crate::ast::option_insert(acc, key, Some(lit)), n);
                }
            }
        } else if i < j <= t.len() {
            lemma_options_errors(t, j, crate::ast::option_insert(acc, key, None), n);
        }
    }
}

proof fn lemma_unexpected(t: Seq<TokenView>, i: int, n: int)
    requires
        tokens_in(t, n),
        0 <= n,
    ensures
        span_in(unexpected_at(t, i).span, n),
        literal_at(t, i) matches Err(e) ==> span_in(e.span, n),
{
    lemma_end_span(t, n);
    if 0 <= i < t.len() {
        assert(span_in(t[i].span, n));
    }
}

proof fn lemma_variable_errors(
    t: Seq<TokenView>,
    i: int,
    comment: Option<crate::ast::CommentBlockView>,
    n: int,
)
    requires
        tokens_in(t, n),
        0 <= n,
        0 <= i < t.len(),
    ensures
        parse_variable_spec(t, i, comment) matches Err(e) ==> span_in(e.span, n),
{
    assert(span_in(t[i].span, n));
    let head = crate::ast::VariableView {
        span: t[i].span,
        comment,
        name: t[i].raw,
        variable_type: None,
        options: None,
        default_value: None,
        nullable: false,
    };
    let j = crate::ast::skip_kinds(t, i + 1, crate::ast::spaces());
    let j2 = crate::ast::skip_kinds(t, j + 1, crate::ast::spaces());
    lemma_unexpected(t, j2, n);
    if crate::ast::has_kind(t, j2, TokenKind::Keyword) {
        let k = crate::ast::skip_kinds(t, j2 + 1, crate::ast::spaces());
        lemma_options_errors(t, crate::ast::skip_kinds(t, k + 1, crate::ast::blanks()), Seq::empty(), n);
        if let Ok((opts, m)) = parse_options_spec(
            t,
            crate::ast::skip_kinds(t, k + 1, crate::ast::blanks()),
            Seq::empty(),
        ) {
            lemma_unexpected(t, m, n);
        }
    }
    if let Ok((v, k)) = type_part(t, j2, head) {
        lemma_unexpected(t, crate::ast::skip_kinds(t, k + 1, crate::ast::spaces()), n);
    }
    lemma_unexpected(t, crate::ast::skip_kinds(t, j + 1, crate::ast::spaces()), n);
}

proof fn lemma_list_errors(t: Seq<TokenView>, i: int, n: int)
    requires
        tokens_in(t, n),
        0 <= n,
    ensures
        parse_list(t, i) matches Err(e) ==> span_in(e.span, n),
    decreases t.len() - i,
{
    if 0 <= i < t.len() {
        assert(span_in(t[i].span, n));
        if t[i].kind == TokenKind::Newline || t[i].kind == TokenKind::Space {
            lemma_list_errors(t, i + 1, n);
        } else if t[i].kind == TokenKind::Comment || t[i].kind == TokenKind::Keyword {
            if t[i].kind == TokenKind::Comment {
                let lines = crate::ast::comment_lines(t, i, t[i].span.end);
                if crate::ast::has_kind(t, lines.1, TokenKind::Keyword) {
                    lemma_variable_errors(t, lines.1, Some(
                        crate::ast::CommentBlockView {
                            span: Span { start: t[i].span.start, end: lines.2 },
                            raw: lines.0,
                        },
                    ), n);
                }
                if let Ok((el, j)) = parse_comment_spec(t, i) {
                    if i < j <= t.len() {
                        lemma_list_errors(t, j, n);
                    }
                }
            } else {
                lemma_variable_errors(t, i, None, n);
                if let Ok((v, j)) = parse_variable_spec(t, i, None) {
                    if i < j <= t.len() {
                        lemma_list_errors(t, j, n);
                    }
                }
            }
        }
    }
}

/// Tokenizing and parsing a source either give a document or fail with a span that lies
/// inside the source.
pub(crate) proof fn lemma_parse_error_in_source(s: Seq<char>)
    requires
        s.len() <= usize::MAX,
    ensures
        parse_source(s) matches Err(e) ==> span_in(e.span, s.len() as int),
{
    lemma_tokens_bounds(s, 0);
    if let Ok(t) = crate::tokenizer::tokenize_spec(s) {
        lemma_list_errors(t, if crate::ast::has_executable(t) { 1 } else { 0 }, s.len() as int);
    }
}

} // verus!
