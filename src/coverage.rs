use crate::ast::{
    blanks,
    comment_lines,
    default_part,
    has_executable,
    has_kind,
    literal_at,
    nullable_part,
    options_part,
    parse_comment_spec,
    parse_document,
    parse_list,
    parse_options_spec,
    parse_variable_spec,
    skip_kinds,
    spaces,
    type_part,
    CommentBlockView,
    ElementView,
    OptionsView,
    VariableView,
};
use crate::program::parse_source;
use crate::span::Span;
use crate::span_bounds::{lemma_parse_error_in_source, lemma_tokens_bounds, span_in, tokens_in, tokens_ordered};
use crate::tokenizer::{tokenize_spec, TokenKind, TokenView};
use vstd::prelude::*;

verus! {

pub open spec fn is_blank(k: TokenKind) -> bool {
    k == TokenKind::Space || k == TokenKind::Newline
}

/// Whether `inner` lies inside `outer`.
pub open spec fn within(inner: Span, outer: Span) -> bool {
    outer.start <= inner.start && inner.end <= outer.end
}

pub open spec fn all_blank(t: Seq<TokenView>, a: int, b: int) -> bool {
    forall|k: int| a <= k < b ==> is_blank(#[trigger] t[k].kind)
}

/// Whether an element's span, or the span of a declaration's comment, holds `sp`.
pub open spec fn element_covers(e: ElementView, sp: Span) -> bool {
    match e {
        ElementView::CommentBlock(c) => within(sp, c.span),
        ElementView::Variable(v) => within(sp, v.span) || (v.comment matches Some(c) && within(
            sp,
            c.span,
        )),
        ElementView::Other(o) => within(sp, o),
    }
}

/// Whether `sp` runs from the token at `i` to the end of a token at some `l < j`, with only
/// blank tokens between `l` and `j`.
pub open spec fn extent(t: Seq<TokenView>, i: int, sp: Span, j: int) -> bool {
    exists|l: int|
        i <= l < j && sp.start == t[i].span.start && sp.end == #[trigger] t[l].span.end && all_blank(
            t,
            l + 1,
            j,
        )
}

/// The tokens of `[i, j)` that are not blank lie inside `sp`.
pub open spec fn covers(t: Seq<TokenView>, i: int, j: int, sp: Span) -> bool {
    forall|k: int| i <= k < j && !is_blank(t[k].kind) ==> within(#[trigger] t[k].span, sp)
}

pub open spec fn well_placed(t: Seq<TokenView>) -> bool {
    &&& tokens_ordered(t)
    &&& forall|k: int| 0 <= k < t.len() ==> (#[trigger] t[k].span).start <= t[k].span.end
}

proof fn lemma_blank_kinds()
    ensures
        forall|x: TokenKind| spaces().contains(x) ==> is_blank(x),
        forall|x: TokenKind| blanks().contains(x) ==> is_blank(x),
{
    assert forall|x: TokenKind| spaces().contains(x) implies is_blank(x) by {
        let p = choose|p: int| 0 <= p < spaces().len() && spaces()[p] == x;
        assert(spaces()[0] == TokenKind::Space);
    }
    assert forall|x: TokenKind| blanks().contains(x) implies is_blank(x) by {
        let p = choose|p: int| 0 <= p < blanks().len() && blanks()[p] == x;
        assert(blanks()[0] == TokenKind::Space);
        assert(blanks()[1] == TokenKind::Newline);
    }
}

proof fn lemma_skip(t: Seq<TokenView>, a: int, kinds: Seq<TokenKind>)
    requires
        0 <= a,
        forall|x: TokenKind| kinds.contains(x) ==> is_blank(x),
    ensures
        a <= skip_kinds(t, a, kinds),
        a <= t.len() ==> skip_kinds(t, a, kinds) <= t.len(),
        all_blank(t, a, skip_kinds(t, a, kinds)),
    decreases t.len() - a,
{
    if 0 <= a < t.len() && kinds.contains(t[a].kind) {
        lemma_skip(t, a + 1, kinds);
    }
}

proof fn lemma_options_end(t: Seq<TokenView>, i: int, acc: OptionsView)
    requires
        0 <= i <= t.len(),
    ensures
        parse_options_spec(t, i, acc) matches Ok((_, m)) ==> i <= m <= t.len(),
    decreases t.len() - i,
{
    lemma_blank_kinds();
    if has_kind(t, i, TokenKind::Keyword) {
        let key = t[i].raw;
        let j = skip_kinds(t, i + 1, blanks());
        lemma_skip(t, i + 1, blanks());
        if has_kind(t, j, TokenKind::Equal) {
            let k = skip_kinds(t, j + 1, spaces());
            lemma_skip(t, j + 1, spaces());
            if let Ok(lit) = literal_at(t, k) {
                let n = skip_kinds(t, k + 1, blanks());
                lemma_skip(t, k + 1, blanks());
                if i < n <= t.len() {
                    lemma_options_end(t, n, crate::ast::option_insert(acc, key, Some(lit)));
                }
            }
        } else if i < j <= t.len() {
            lemma_options_end(t, j, crate::ast::option_insert(acc, key, None));
        }
    }
}

/// Where the non-blank tokens that a step consumed end before its extent, they are covered.
proof fn lemma_extent_covers(t: Seq<TokenView>, i: int, sp: Span, j: int)
    requires
        well_placed(t),
        0 <= i,
        j <= t.len(),
        extent(t, i, sp, j),
    ensures
        covers(t, i, j, sp),
{
    let l = choose|l: int|
        i <= l < j && sp.start == t[i].span.start && sp.end == #[trigger] t[l].span.end
            && all_blank(t, l + 1, j);
    assert forall|k: int| i <= k < j && !is_blank(t[k].kind) implies within(
        #[trigger] t[k].span,
        sp,
    ) by {
        assert(k <= l);
        if i < k {
            assert(t[i].span.end <= t[k].span.start);
        }
        if k < l {
            assert(t[k].span.end <= t[l].span.start);
        }
    }
}

proof fn lemma_default_extent(t: Seq<TokenView>, i: int, k: int, v: VariableView)
    requires
        0 <= i < k <= t.len(),
        extent(t, i, v.span, k),
    ensures
        default_part(t, k, v) matches Ok((w, j)) ==> j <= t.len() && extent(t, i, w.span, j),
{
    lemma_blank_kinds();
    if has_kind(t, k, TokenKind::Equal) {
        let n = skip_kinds(t, k + 1, spaces());
        lemma_skip(t, k + 1, spaces());
        if let Ok(lit) = literal_at(t, n) {
            let w = default_part(t, k, v)->Ok_0.0;
            assert(i <= n < n + 1 && w.span.start == t[i].span.start && w.span.end == t[n].span.end
                && all_blank(t, n + 1, n + 1));
        }
    }
}

proof fn lemma_type_extent(t: Seq<TokenView>, i: int, j2: int, v: VariableView)
    requires
        0 <= i < j2 <= t.len(),
        v.span.start == t[i].span.start,
    ensures
        type_part(t, j2, v) matches Ok((w, m)) ==> m <= t.len() && extent(t, i, w.span, m),
{
    lemma_blank_kinds();
    if has_kind(t, j2, TokenKind::Keyword) {
        let typed = VariableView {
            span: Span { start: v.span.start, end: t[j2].span.end },
            comment: v.comment,
            name: v.name,
            variable_type: Some(t[j2].raw),
            options: v.options,
            default_value: v.default_value,
            nullable: v.nullable,
        };
        let k = skip_kinds(t, j2 + 1, spaces());
        lemma_skip(t, j2 + 1, spaces());
        if has_kind(t, k, TokenKind::LessThan) {
            let start = skip_kinds(t, k + 1, blanks());
            lemma_skip(t, k + 1, blanks());
            lemma_options_end(t, start, Seq::empty());
            if let Ok((opts, m)) = parse_options_spec(t, start, Seq::empty()) {
                if has_kind(t, m, TokenKind::GreaterThan) {
                    let after = skip_kinds(t, m + 1, spaces());
                    lemma_skip(t, m + 1, spaces());
                    let w = options_part(t, k, typed)->Ok_0.0;
                    assert(i <= m < after && w.span.start == t[i].span.start && w.span.end
                        == t[m].span.end && all_blank(t, m + 1, after));
                    lemma_nullable_extent(t, i, after, w);
                }
            }
        } else {
            assert(i <= j2 < k && typed.span.start == t[i].span.start && typed.span.end
                == t[j2].span.end && all_blank(t, j2 + 1, k));
            lemma_nullable_extent(t, i, k, typed);
        }
    }
}

proof fn lemma_nullable_extent(t: Seq<TokenView>, i: int, m: int, w: VariableView)
    requires
        0 <= i < m <= t.len(),
        extent(t, i, w.span, m),
    ensures
        ({
            let (x, n) = nullable_part(t, m, w);
            n <= t.len() && extent(t, i, x.span, n)
        }),
{
    if has_kind(t, m, TokenKind::QuestionMark) {
        let x = nullable_part(t, m, w).0;
        assert(i <= m < m + 1 && x.span.start == t[i].span.start && x.span.end == t[m].span.end
            && all_blank(t, m + 1, m + 1));
    }
}

/// A declaration parsed from `i` to `j` holds every non-blank token of `[i, j)` in its span.
proof fn lemma_variable_covers(t: Seq<TokenView>, i: int, comment: Option<CommentBlockView>)
    requires
        well_placed(t),
        0 <= i < t.len(),
    ensures
        parse_variable_spec(t, i, comment) matches Ok((v, j)) ==> i < j <= t.len() && covers(
            t,
            i,
            j,
            v.span,
        ) && v.comment == comment,
{
    lemma_blank_kinds();
    let head = VariableView {
        span: t[i].span,
        comment,
        name: t[i].raw,
        variable_type: None,
        options: None,
        default_value: None,
        nullable: false,
    };
    let j = skip_kinds(t, i + 1, spaces());
    lemma_skip(t, i + 1, spaces());
    assert(i <= i < j && head.span.start == t[i].span.start && head.span.end == t[i].span.end
        && all_blank(t, i + 1, j));
    if has_kind(t, j, TokenKind::Colon) {
        let j2 = skip_kinds(t, j + 1, spaces());
        lemma_skip(t, j + 1, spaces());
        lemma_type_extent(t, i, j2, head);
        if let Ok((v, k)) = type_part(t, j2, head) {
            lemma_default_extent(t, i, k, v);
            if let Ok((w, n)) = default_part(t, k, v) {
                lemma_extent_covers(t, i, w.span, n);
            }
        }
    } else {
        lemma_default_extent(t, i, j, head);
        if let Ok((w, n)) = default_part(t, j, head) {
            lemma_extent_covers(t, i, w.span, n);
        }
    }
}

/// The comment lines from `c` on end, with only blank tokens after, at the last comment
/// token `l`; before that, `end` is the end of the token `l0`.
proof fn lemma_comment_lines(t: Seq<TokenView>, c: int, l0: int)
    requires
        0 <= l0 < c,
        l0 < t.len(),
        all_blank(t, l0 + 1, c),
        forall|k: int| l0 <= k < c ==> is_blank(#[trigger] t[k].kind) || t[k].kind
            == TokenKind::Comment,
    ensures
        ({
            let r = comment_lines(t, c, t[l0].span.end);
            &&& c <= r.1
            &&& (c <= t.len() ==> r.1 <= t.len())
            &&& exists|l: int|
                l0 <= l < r.1 && r.2 == #[trigger] t[l].span.end && all_blank(t, l + 1, r.1)
            &&& forall|k: int| l0 <= k < r.1 ==> is_blank(#[trigger] t[k].kind) || t[k].kind
                == TokenKind::Comment
        }),
    decreases t.len() - c,
{
    let r = comment_lines(t, c, t[l0].span.end);
    if c < 0 || c >= t.len() {
        assert(l0 <= l0 < r.1 && r.2 == t[l0].span.end && all_blank(t, l0 + 1, r.1));
    } else if t[c].kind == TokenKind::Space {
        lemma_comment_lines(t, c + 1, l0);
    } else if t[c].kind != TokenKind::Comment {
        assert(l0 <= l0 < r.1 && r.2 == t[l0].span.end && all_blank(t, l0 + 1, r.1));
    } else {
        let next = if has_kind(t, c + 1, TokenKind::Newline) {
            c + 2
        } else {
            c + 1
        };
        lemma_comment_lines(t, next, c);
    }
}

/// A comment block or a commented declaration parsed from `i` to `j` covers the non-blank
/// tokens of `[i, j)`.
proof fn lemma_comment_covers(t: Seq<TokenView>, i: int)
    requires
        well_placed(t),
        has_kind(t, i, TokenKind::Comment),
    ensures
        parse_comment_spec(t, i) matches Ok((el, j)) ==> i < j <= t.len() && forall|k: int|
            i <= k < j && !is_blank(t[k].kind) ==> element_covers(el, #[trigger] t[k].span),
{
    let next = if has_kind(t, i + 1, TokenKind::Newline) {
        i + 2
    } else {
        i + 1
    };
    lemma_comment_lines(t, next, i);
    let lines = comment_lines(t, i, t[i].span.end);
    let rest = comment_lines(t, next, t[i].span.end);
    assert(lines.1 == rest.1 && lines.2 == rest.2);
    let l = choose|l: int| i <= l < rest.1 && rest.2 == #[trigger] t[l].span.end && all_blank(
        t,
        l + 1,
        rest.1,
    );
    let block = CommentBlockView {
        span: Span { start: t[i].span.start, end: lines.2 },
        raw: lines.0,
    };
    assert(covers(t, i, lines.1, block.span)) by {
        assert forall|k: int| i <= k < lines.1 && !is_blank(t[k].kind) implies within(
            #[trigger] t[k].span,
            block.span,
        ) by {
            assert(k <= l);
            if i < k {
                assert(t[i].span.end <= t[k].span.start);
            }
            if k < l {
                assert(t[k].span.end <= t[l].span.start);
            }
        }
    }
    if has_kind(t, lines.1, TokenKind::Keyword) {
        lemma_variable_covers(t, lines.1, Some(block));
        if let Ok((v, j)) = parse_variable_spec(t, lines.1, Some(block)) {
            assert forall|k: int| i <= k < j && !is_blank(t[k].kind) implies element_covers(
                ElementView::Variable(v),
                #[trigger] t[k].span,
            ) by {
                if k >= lines.1 {
                    assert(within(t[k].span, v.span));
                } else {
                    assert(within(t[k].span, block.span));
                }
            }
        }
    }
}

proof fn lemma_list_covers(t: Seq<TokenView>, i: int)
    requires
        well_placed(t),
        0 <= i,
    ensures
        parse_list(t, i) matches Ok(els) ==> forall|k: int|
            i <= k < t.len() && !is_blank(t[k].kind) ==> exists|e: int|
                0 <= e < els.len() && element_covers(els[e], #[trigger] t[k].span),
    decreases t.len() - i,
{
    if i < t.len() {
        if t[i].kind == TokenKind::Newline || t[i].kind == TokenKind::Space {
            lemma_list_covers(t, i + 1);
        } else if t[i].kind == TokenKind::Comment || t[i].kind == TokenKind::Keyword {
            let step = if t[i].kind == TokenKind::Comment {
                parse_comment_spec(t, i)
            } else {
                match parse_variable_spec(t, i, None) {
                    Err(e) => Err(e),
                    Ok((v, k)) => Ok((ElementView::Variable(v), k)),
                }
            };
            if t[i].kind == TokenKind::Comment {
                lemma_comment_covers(t, i);
            } else {
                lemma_variable_covers(t, i, None);
            }
            if let Ok((el, j)) = step {
                if i < j <= t.len() {
                    lemma_list_covers(t, j);
                    if let Ok(els) = parse_list(t, i) {
                        let rest = parse_list(t, j)->Ok_0;
                        assert(els == seq![el] + rest);
                        assert forall|k: int| i <= k < t.len() && !is_blank(t[k].kind) implies exists|
                            e: int,
                        | 0 <= e < els.len() && element_covers(els[e], #[trigger] t[k].span) by {
                            if k < j {
                                assert(els[0] == el);
                                assert(element_covers(els[0], t[k].span));
                            } else {
                                let e = choose|e: int|
                                    0 <= e < rest.len() && element_covers(rest[e], t[k].span);
                                assert(els[e + 1] == rest[e]);
                            }
                        }
                    }
                }
            }
        }
    }
}

/// Tokenizing and parsing a source either give a document whose elements cover, through
/// their spans (a declaration's own, or that of its comment), every token that is not blank,
/// but for the leading `#!` line; or fail with an error whose span lies inside the source.
pub proof fn lemma_parse_spans(s: Seq<char>)
    requires
        s.len() <= usize::MAX,
    ensures
        parse_source(s) matches Err(e) ==> span_in(e.span, s.len() as int),
        tokenize_spec(s) matches Ok(t) ==> (parse_document(t) matches Ok(d) ==> forall|k: int|
            0 <= k < t.len() && !is_blank(t[k].kind) ==> (k == 0 && d.executable is Some)
                || exists|e: int|
                0 <= e < d.elements.len() && element_covers(d.elements[e], #[trigger] t[k].span)),
{
    lemma_parse_error_in_source(s);
    lemma_tokens_bounds(s, 0);
    if let Ok(t) = tokenize_spec(s) {
        assert(well_placed(t)) by {
            assert forall|k: int| 0 <= k < t.len() implies (#[trigger] t[k].span).start
                <= t[k].span.end by {
                assert(span_in(t[k].span, s.len() as int));
            }
        }
        let start = if has_executable(t) {
            1int
        } else {
            0int
        };
        lemma_list_covers(t, start);
        if let Ok(d) = parse_document(t) {
            let els = parse_list(t, start)->Ok_0;
            assert(d.elements == els);
            assert forall|k: int| 0 <= k < t.len() && !is_blank(t[k].kind) implies (k == 0
                && d.executable is Some) || exists|e: int|
                0 <= e < d.elements.len() && element_covers(d.elements[e], #[trigger] t[k].span) by {
                if k >= start {
                    let e = choose|e: int| 0 <= e < els.len() && element_covers(els[e], t[k].span);
                    assert(0 <= e < d.elements.len() && element_covers(d.elements[e], t[k].span));
                }
            }
        }
    }
}

} // verus!
