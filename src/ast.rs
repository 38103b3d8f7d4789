use crate::span::Span;
use crate::syntax_error::{SyntaxError, SyntaxErrorView};
use crate::tokenizer::{kind_name, msg_unexpected_token, tokens_view, Token, TokenKind, TokenView};
use vstd::prelude::*;

verus! {

/// The root of a parsed source: an optional `#!` line and the declarations and comments.
#[derive(Debug)]
pub struct Document {
    pub span: Span,
    pub executable: Option<String>,
    pub elements: Vec<Expression>,
}

/// A declaration of one expected environment variable.
#[derive(Debug)]
pub struct Variable {
    pub span: Span,
    pub comment: Option<CommentBlock>,
    pub name: String,
    pub variable_type: Option<String>,
    pub options_variable_type: Option<Vec<(String, Option<OptionValue>)>>,
    pub default_value: Option<DefaultValue>,
    pub nullable: bool,
}

/// One or more adjacent comment lines.
#[derive(Debug)]
pub struct CommentBlock {
    pub span: Span,
    pub raw: Vec<String>,
}

/// The literal after `=` in a declaration.
#[derive(Debug)]
pub struct DefaultValue {
    pub span: Span,
    pub value: String,
}

/// The literal given to a type option.
#[derive(Debug)]
pub struct OptionValue {
    pub span: Span,
    pub value: String,
}

/// A node of the syntax tree.
#[derive(Debug)]
pub enum Expression {
    Document(Document),
    CommentBlock(CommentBlock),
    Variable(Variable),
    DefaultValue(DefaultValue),
    OptionValue(OptionValue),
}

/// The content of a literal: where it stands and its text, unevaluated.
pub struct LiteralView {
    pub span: Span,
    pub value: Seq<char>,
}

pub struct CommentBlockView {
    pub span: Span,
    pub raw: Seq<Seq<char>>,
}

/// Option keys with their optional values, each key once.
pub type OptionsView = Seq<(Seq<char>, Option<LiteralView>)>;

pub struct VariableView {
    pub span: Span,
    pub comment: Option<CommentBlockView>,
    pub name: Seq<char>,
    pub variable_type: Option<Seq<char>>,
    pub options: Option<OptionsView>,
    pub default_value: Option<LiteralView>,
    pub nullable: bool,
}

/// What can stand among a document's elements.
pub enum ElementView {
    CommentBlock(CommentBlockView),
    Variable(VariableView),
    Other(Span),
}

pub struct DocumentView {
    pub span: Span,
    pub executable: Option<Seq<char>>,
    pub elements: Seq<ElementView>,
}

pub enum ExpressionView {
    Document(DocumentView),
    CommentBlock(CommentBlockView),
    Variable(VariableView),
    DefaultValue(LiteralView),
    OptionValue(LiteralView),
}

impl View for CommentBlock {
    type V = CommentBlockView;

    open spec fn view(&self) -> CommentBlockView {
        CommentBlockView { span: self.span, raw: self.raw@.map_values(|s: String| s@) }
    }
}

impl View for DefaultValue {
    type V = LiteralView;

    open spec fn view(&self) -> LiteralView {
        LiteralView { span: self.span, value: self.value@ }
    }
}

impl View for OptionValue {
    type V = LiteralView;

    open spec fn view(&self) -> LiteralView {
        LiteralView { span: self.span, value: self.value@ }
    }
}

pub open spec fn option_value_view(o: Option<OptionValue>) -> Option<LiteralView> {
    match o {
        Some(v) => Some(v@),
        None => None,
    }
}

pub open spec fn options_view(o: Seq<(String, Option<OptionValue>)>) -> OptionsView {
    o.map_values(|e: (String, Option<OptionValue>)| (e.0@, option_value_view(e.1)))
}

impl View for Variable {
    type V = VariableView;

    open spec fn view(&self) -> VariableView {
        VariableView {
            span: self.span,
            comment: match self.comment {
                Some(c) => Some(c@),
                None => None,
            },
            name: self.name@,
            variable_type: match self.variable_type {
                Some(t) => Some(t@),
                None => None,
            },
            options: match self.options_variable_type {
                Some(o) => Some(options_view(o@)),
                None => None,
            },
            default_value: match self.default_value {
                Some(d) => Some(d@),
                None => None,
            },
            nullable: self.nullable,
        }
    }
}

pub open spec fn element_view(e: Expression) -> ElementView {
    match e {
        Expression::CommentBlock(c) => ElementView::CommentBlock(c@),
        Expression::Variable(v) => ElementView::Variable(v@),
        Expression::Document(d) => ElementView::Other(d.span),
        Expression::DefaultValue(d) => ElementView::Other(d.span),
        Expression::OptionValue(o) => ElementView::Other(o.span),
    }
}

pub open spec fn elements_view(es: Seq<Expression>) -> Seq<ElementView> {
    es.map_values(|e: Expression| element_view(e))
}

impl View for Document {
    type V = DocumentView;

    open spec fn view(&self) -> DocumentView {
        DocumentView {
            span: self.span,
            executable: match self.executable {
                Some(x) => Some(x@),
                None => None,
            },
            elements: elements_view(self.elements@),
        }
    }
}

impl View for Expression {
    type V = ExpressionView;

    open spec fn view(&self) -> ExpressionView {
        match self {
            Expression::Document(d) => ExpressionView::Document(d@),
            Expression::CommentBlock(c) => ExpressionView::CommentBlock(c@),
            Expression::Variable(v) => ExpressionView::Variable(v@),
            Expression::DefaultValue(d) => ExpressionView::DefaultValue(d@),
            Expression::OptionValue(o) => ExpressionView::OptionValue(o@),
        }
    }
}

// ---- The grammar, over the token sequence ----

pub open spec fn has_kind(t: Seq<TokenView>, i: int, k: TokenKind) -> bool {
    0 <= i < t.len() && t[i].kind == k
}

/// The first position at or after `i` whose token is not of one of `kinds`.
pub open spec fn skip_kinds(t: Seq<TokenView>, i: int, kinds: Seq<TokenKind>) -> int
    decreases t.len() - i,
{
    if 0 <= i < t.len() && kinds.contains(t[i].kind) {
        skip_kinds(t, i + 1, kinds)
    } else {
        i
    }
}

pub open spec fn spaces() -> Seq<TokenKind> {
    seq![TokenKind::Space]
}

pub open spec fn blanks() -> Seq<TokenKind> {
    seq![TokenKind::Space, TokenKind::Newline]
}

/// The empty span right after the last token, where the input ends.
pub open spec fn end_span(t: Seq<TokenView>) -> Span {
    if t.len() > 0 {
        Span { start: t.last().span.end, end: t.last().span.end }
    } else {
        Span { start: 0, end: 0 }
    }
}

/// The error for a token at `i` of a kind that the grammar does not expect there.
pub open spec fn unexpected_at(t: Seq<TokenView>, i: int) -> SyntaxErrorView {
    if 0 <= i < t.len() {
        SyntaxErrorView { message: "Unexpected token "@ + kind_name(t[i].kind), span: t[i].span }
    } else {
        SyntaxErrorView { message: msg_unexpected_token(), span: end_span(t) }
    }
}

/// The literal at `i`: a string or a number token.
pub open spec fn literal_at(t: Seq<TokenView>, i: int) -> Result<LiteralView, SyntaxErrorView> {
    if has_kind(t, i, TokenKind::String) || has_kind(t, i, TokenKind::Number) {
        Ok(LiteralView { span: t[i].span, value: t[i].raw })
    } else if 0 <= i < t.len() {
        Err(SyntaxErrorView { message: msg_unexpected_token(), span: t[i].span })
    } else {
        Err(SyntaxErrorView { message: msg_unexpected_token(), span: end_span(t) })
    }
}

pub open spec fn keys_unique(o: OptionsView) -> bool {
    forall|p: int, q: int| 0 <= p < o.len() && 0 <= q < o.len() && o[p].0 == o[q].0 ==> p == q
}

/// `o` with `key` mapped to `value`: a key already there keeps its place.
pub open spec fn option_insert(o: OptionsView, key: Seq<char>, value: Option<LiteralView>) -> OptionsView {
    if exists|p: int| 0 <= p < o.len() && o[p].0 == key {
        o.update(choose|p: int| 0 <= p < o.len() && o[p].0 == key, (key, value))
    } else {
        o.push((key, value))
    }
}

/// The options of a `< ... >` block from `i` on, added to `acc`, with the position after them.
pub open spec fn parse_options_spec(t: Seq<TokenView>, i: int, acc: OptionsView) -> Result<
    (OptionsView, int),
    SyntaxErrorView,
>
    decreases t.len() - i,
{
    if !has_kind(t, i, TokenKind::Keyword) {
        Ok((acc, i))
    } else {
        let key = t[i].raw;
        let j = skip_kinds(t, i + 1, blanks());
        if has_kind(t, j, TokenKind::Equal) {
            let k = skip_kinds(t, j + 1, spaces());
            match literal_at(t, k) {
                Err(e) => Err(e),
                Ok(lit) => {
                    let n = skip_kinds(t, k + 1, blanks());
                    if i < n <= t.len() {
                        parse_options_spec(t, n, option_insert(acc, key, Some(lit)))
                    } else {
                        Ok((acc, n))
                    }
                },
            }
        } else if i < j <= t.len() {
            parse_options_spec(t, j, option_insert(acc, key, None))
        } else {
            Ok((acc, j))
        }
    }
}

/// The part `= literal` of a declaration, if it is there at `k`.
pub open spec fn default_part(t: Seq<TokenView>, k: int, v: VariableView) -> Result<
    (VariableView, int),
    SyntaxErrorView,
> {
    if has_kind(t, k, TokenKind::Equal) {
        let n = skip_kinds(t, k + 1, spaces());
        match literal_at(t, n) {
            Err(e) => Err(e),
            Ok(lit) => Ok(
                (
                    VariableView {
                        span: Span { start: v.span.start, end: lit.span.end },
                        comment: v.comment,
                        name: v.name,
                        variable_type: v.variable_type,
                        options: v.options,
                        default_value: Some(lit),
                        nullable: v.nullable,
                    },
                    n + 1,
                ),
            ),
        }
    } else {
        Ok((v, k))
    }
}

/// The part `< options >` after a type, if it is there at `k`.
pub open spec fn options_part(t: Seq<TokenView>, k: int, v: VariableView) -> Result<
    (VariableView, int),
    SyntaxErrorView,
> {
    if has_kind(t, k, TokenKind::LessThan) {
        match parse_options_spec(t, skip_kinds(t, k + 1, blanks()), Seq::empty()) {
            Err(e) => Err(e),
            Ok((opts, m)) => {
                if has_kind(t, m, TokenKind::GreaterThan) {
                    Ok(
                        (
                            VariableView {
                                span: Span { start: v.span.start, end: t[m].span.end },
                                comment: v.comment,
                                name: v.name,
                                variable_type: v.variable_type,
                                options: Some(opts),
                                default_value: v.default_value,
                                nullable: v.nullable,
                            },
                            skip_kinds(t, m + 1, spaces()),
                        ),
                    )
                } else {
                    Err(unexpected_at(t, m))
                }
            },
        }
    } else {
        Ok((v, k))
    }
}

/// The mark `?` after a type, if it is there at `m`.
pub open spec fn nullable_part(t: Seq<TokenView>, m: int, v: VariableView) -> (VariableView, int) {
    if has_kind(t, m, TokenKind::QuestionMark) {
        (
            VariableView {
                span: Span { start: v.span.start, end: t[m].span.end },
                comment: v.comment,
                name: v.name,
                variable_type: v.variable_type,
                options: v.options,
                default_value: v.default_value,
                nullable: true,
            },
            m + 1,
        )
    } else {
        (v, m)
    }
}

/// The type after a colon, with its options and its `?`, the type keyword being looked for at `j`.
pub open spec fn type_part(t: Seq<TokenView>, j: int, v: VariableView) -> Result<
    (VariableView, int),
    SyntaxErrorView,
> {
    if !has_kind(t, j, TokenKind::Keyword) {
        Err(unexpected_at(t, j))
    } else {
        let typed = VariableView {
            span: Span { start: v.span.start, end: t[j].span.end },
            comment: v.comment,
            name: v.name,
            variable_type: Some(t[j].raw),
            options: v.options,
            default_value: v.default_value,
            nullable: v.nullable,
        };
        match options_part(t, skip_kinds(t, j + 1, spaces()), typed) {
            Err(e) => Err(e),
            Ok((w, m)) => Ok(nullable_part(t, m, w)),
        }
    }
}

/// The declaration whose name is the keyword at `i`, with the position after it.
pub open spec fn parse_variable_spec(
    t: Seq<TokenView>,
    i: int,
    comment: Option<CommentBlockView>,
) -> Result<(VariableView, int), SyntaxErrorView> {
    let head = VariableView {
        span: t[i].span,
        comment,
        name: t[i].raw,
        variable_type: None,
        options: None,
        default_value: None,
        nullable: false,
    };
    let j = skip_kinds(t, i + 1, spaces());
    if has_kind(t, j, TokenKind::Colon) {
        match type_part(t, skip_kinds(t, j + 1, spaces()), head) {
            Err(e) => Err(e),
            Ok((v, k)) => default_part(t, k, v),
        }
    } else {
        default_part(t, j, head)
    }
}

/// The comment lines from `i` on (spaces between them and one newline after each skipped),
/// with the position after them and the end of the last one (`end` if there is none).
pub open spec fn comment_lines(t: Seq<TokenView>, i: int, end: usize) -> (Seq<Seq<char>>, int, usize)
    decreases t.len() - i,
{
    if i < 0 || i >= t.len() {
        (Seq::empty(), i, end)
    } else if t[i].kind == TokenKind::Space {
        comment_lines(t, i + 1, end)
    } else if t[i].kind != TokenKind::Comment {
        (Seq::empty(), i, end)
    } else {
        let next = if has_kind(t, i + 1, TokenKind::Newline) {
            i + 2
        } else {
            i + 1
        };
        let rest = comment_lines(t, next, t[i].span.end);
        (seq![t[i].raw] + rest.0, rest.1, rest.2)
    }
}

/// A comment block at `i`, which becomes the comment of a declaration that follows it directly.
pub open spec fn parse_comment_spec(t: Seq<TokenView>, i: int) -> Result<
    (ElementView, int),
    SyntaxErrorView,
> {
    let lines = comment_lines(t, i, t[i].span.end);
    let block = CommentBlockView { span: Span { start: t[i].span.start, end: lines.2 }, raw: lines.0 };
    if has_kind(t, lines.1, TokenKind::Keyword) {
        match parse_variable_spec(t, lines.1, Some(block)) {
            Err(e) => Err(e),
            Ok((v, k)) => Ok((ElementView::Variable(v), k)),
        }
    } else {
        Ok((ElementView::CommentBlock(block), lines.1))
    }
}

pub open spec fn msg_unexpected_type() -> Seq<char> {
    "Unexpected type"@
}

/// The elements from position `i` on.
pub open spec fn parse_list(t: Seq<TokenView>, i: int) -> Result<Seq<ElementView>, SyntaxErrorView>
    decreases t.len() - i,
{
    if i < 0 || i >= t.len() {
        Ok(Seq::empty())
    } else if t[i].kind == TokenKind::Newline || t[i].kind == TokenKind::Space {
        parse_list(t, i + 1)
    } else if t[i].kind == TokenKind::Comment || t[i].kind == TokenKind::Keyword {
        let step = if t[i].kind == TokenKind::Comment {
            parse_comment_spec(t, i)
        } else {
            match parse_variable_spec(t, i, None) {
                Err(e) => Err(e),
                Ok((v, k)) => Ok((ElementView::Variable(v), k)),
            }
        };
        match step {
            Err(e) => Err(e),
            Ok((el, j)) => {
                if i < j <= t.len() {
                    match parse_list(t, j) {
                        Ok(rest) => Ok(seq![el] + rest),
                        Err(e) => Err(e),
                    }
                } else {
                    Ok(Seq::empty())
                }
            },
        }
    } else {
        Err(SyntaxErrorView { message: msg_unexpected_type(), span: t[i].span })
    }
}

pub open spec fn element_end(e: ElementView) -> usize {
    match e {
        ElementView::CommentBlock(c) => c.span.end,
        ElementView::Variable(v) => v.span.end,
        ElementView::Other(s) => s.end,
    }
}

/// Whether the first token is a comment that starts with `#!`.
pub open spec fn has_executable(t: Seq<TokenView>) -> bool {
    &&& t.len() > 0
    &&& t[0].kind == TokenKind::Comment
    &&& t[0].raw.len() >= 2
    &&& t[0].raw[0] == '#'
    &&& t[0].raw[1] == '!'
}

/// The document that a token sequence parses to.
pub open spec fn parse_document(t: Seq<TokenView>) -> Result<DocumentView, SyntaxErrorView> {
    let marked = has_executable(t);
    match parse_list(t, if marked { 1 } else { 0 }) {
        Err(e) => Err(e),
        Ok(elements) => Ok(
            DocumentView {
                span: Span {
                    start: if marked { t[0].span.start } else { 0 },
                    end: if elements.len() > 0 {
                        element_end(elements.last())
                    } else if marked {
                        t[0].span.end
                    } else {
                        0
                    },
                },
                executable: if marked { Some(t[0].raw) } else { None },
                elements,
            },
        ),
    }
}

// ---- The builder ----

/// A result seen through the views of its value and its error.
pub open spec fn result_view<T: View>(r: Result<T, SyntaxError>) -> Result<T::V, SyntaxErrorView> {
    match r {
        Ok(x) => Ok(x@),
        Err(e) => Err(e@),
    }
}

/// A result of a parse step, with the position that the cursor reached.
pub open spec fn step_view<T: View>(r: Result<T, SyntaxError>, index: int) -> Result<
    (T::V, int),
    SyntaxErrorView,
> {
    match r {
        Ok(x) => Ok((x@, index)),
        Err(e) => Err(e@),
    }
}

impl Expression {
    pub fn to_span(&self) -> (r: Span)
        ensures
            r == (match self {
                Expression::Document(d) => d.span,
                Expression::CommentBlock(c) => c.span,
                Expression::Variable(v) => v.span,
                Expression::DefaultValue(d) => d.span,
                Expression::OptionValue(o) => o.span,
            }),
    {
        match self {
            Expression::Document(d) => d.span,
            Expression::CommentBlock(c) => c.span,
            Expression::Variable(v) => v.span,
            Expression::DefaultValue(d) => d.span,
            Expression::OptionValue(o) => o.span,
        }
    }

    pub fn as_variable(&self) -> (r: Option<&Variable>)
        ensures
            r == (match self {
                Expression::Variable(v) => Some(v),
                _ => None::<&Variable>,
            }),
    {
        if let Expression::Variable(v) = self {
            Some(v)
        } else {
            None
        }
    }

    pub fn as_document(&self) -> (r: Option<&Document>)
        ensures
            r == (match self {
                Expression::Document(d) => Some(d),
                _ => None::<&Document>,
            }),
    {
        if let Expression::Document(d) = self {
            Some(d)
        } else {
            None
        }
    }

    pub fn as_default_value(&self) -> (r: Option<&DefaultValue>)
        ensures
            r == (match self {
                Expression::DefaultValue(d) => Some(d),
                _ => None::<&DefaultValue>,
            }),
    {
        if let Expression::DefaultValue(d) = self {
            Some(d)
        } else {
            None
        }
    }
}

fn kind_in(k: TokenKind, kinds: &Vec<TokenKind>) -> (r: bool)
    ensures
        r == kinds@.contains(k),
{
    let mut p: usize = 0;
    while p < kinds.len()
        invariant
            p <= kinds.len(),
            forall|q: int| 0 <= q < p ==> kinds@[q] != k,
        decreases kinds.len() - p,
    {
        if kinds[p] == k {
            return true;
        }
        p = p + 1;
    }
    false
}

/// A position over a token sequence.
struct Cursor {
    items: Vec<Token>,
    index: usize,
}

impl Cursor {
    spec fn toks(&self) -> Seq<TokenView> {
        tokens_view(self.items@)
    }

    spec fn wf(&self) -> bool {
        self.index <= self.items@.len()
    }

    fn new(items: Vec<Token>) -> (r: Self)
        ensures
            r.items == items,
            r.index == 0,
    {
        Cursor { index: 0, items }
    }

    fn select_current(&self) -> (r: Option<&Token>)
        requires
            self.wf(),
        ensures
            r == (if self.index < self.items@.len() {
                Some(&self.items@[self.index as int])
            } else {
                None::<&Token>
            }),
    {
        if self.index < self.items.len() {
            Some(&self.items[self.index])
        } else {
            None
        }
    }

    fn select_next(&self) -> (r: Option<&Token>)
        requires
            self.wf(),
        ensures
            r == (if self.index + 1 < self.items@.len() {
                Some(&self.items@[self.index + 1])
            } else {
                None::<&Token>
            }),
    {
        if self.index < self.items.len() && self.index + 1 < self.items.len() {
            Some(&self.items[self.index + 1])
        } else {
            None
        }
    }

    /// Whether the current token is of kind `kind`.
    fn current_is(&self, kind: TokenKind) -> (r: bool)
        requires
            self.wf(),
        ensures
            r == has_kind(self.toks(), self.index as int, kind),
    {
        match self.select_current() {
            Some(token) => token.kind == kind,
            None => false,
        }
    }

    fn end_span(&self) -> (r: Span)
        ensures
            r == end_span(self.toks()),
    {
        let n = self.items.len();
        if n > 0 {
            let end = self.items[n - 1].span.end;
            Span { start: end, end }
        } else {
            Span { start: 0, end: 0 }
        }
    }

    /// The current token, if it is of kind `kind`; else the error for what stands there.
    fn assert_current_kind(&self, kind: TokenKind) -> (r: Result<&Token, SyntaxError>)
        requires
            self.wf(),
        ensures
            match r {
                Ok(token) => has_kind(self.toks(), self.index as int, kind) && *token
                    == self.items@[self.index as int],
                Err(e) => !has_kind(self.toks(), self.index as int, kind) && e@ == unexpected_at(
                    self.toks(),
                    self.index as int,
                ),
            },
    {
        match self.select_current() {
            Some(token) => {
                if token.kind == kind {
                    Ok(token)
                } else {
                    let mut message = "Unexpected token ".to_owned();
                    message.append(token.kind.name());
                    Err(SyntaxError::new(message, token.span))
                }
            },
            None => Err(SyntaxError::new("Unexpected token".to_owned(), self.end_span())),
        }
    }

    /// Moves past every token of one of `kinds`.
    fn forward_some_kind(&mut self, kinds: &Vec<TokenKind>)
        requires
            old(self).wf(),
        ensures
            final(self).wf(),
            final(self).items == old(self).items,
            final(self).index == skip_kinds(old(self).toks(), old(self).index as int, kinds@),
            old(self).index <= final(self).index,
    {
        let ghost i0 = self.index as int;
        while self.index < self.items.len() && kind_in(self.items[self.index].kind, kinds)
            invariant
                self.wf(),
                self.items == old(self).items,
                i0 == old(self).index,
                i0 <= self.index,
                skip_kinds(self.toks(), i0, kinds@) == skip_kinds(
                    self.toks(),
                    self.index as int,
                    kinds@,
                ),
            decreases self.items.len() - self.index,
        {
            self.index = self.index + 1;
        }
    }

    fn forward(&mut self, steps: usize)
        requires
            old(self).index + steps <= old(self).items@.len(),
        ensures
            final(self).wf(),
            final(self).items == old(self).items,
            final(self).index == old(self).index + steps,
    {
        let _n = self.items.len();
        self.index = self.index + steps;
    }

    fn current_raw(&self) -> (r: String)
        requires
            self.index < self.items@.len(),
        ensures
            r@ == self.toks()[self.index as int].raw,
    {
        self.items[self.index].raw.clone()
    }

    fn current_span(&self) -> (r: Span)
        requires
            self.index < self.items@.len(),
        ensures
            r == self.toks()[self.index as int].span,
    {
        self.items[self.index].span
    }
}

/// Keys `key` to `value` in `options`, in place where the key is already there.
fn insert_option(
    options: &mut Vec<(String, Option<OptionValue>)>,
    key: String,
    value: Option<OptionValue>,
)
    requires
        keys_unique(options_view(old(options)@)),
    ensures
        keys_unique(options_view(final(options)@)),
        options_view(final(options)@) == option_insert(
            options_view(old(options)@),
            key@,
            option_value_view(value),
        ),
{
    let ghost o = options_view(options@);
    let mut p: usize = 0;
    while p < options.len()
        invariant
            p <= options.len(),
            options@ == old(options)@,
            o == options_view(options@),
            keys_unique(o),
            forall|q: int| 0 <= q < p ==> o[q].0 != key@,
        decreases options.len() - p,
    {
        if options[p].0 == key {
            let ghost v = option_value_view(value);
            proof {
                assert(o[p as int] == (options@[p as int].0@, option_value_view(
                    options@[p as int].1,
                )));
                assert(0 <= p < o.len() && o[p as int].0 == key@);
                let c = choose|q: int| 0 <= q < o.len() && o[q].0 == key@;
                assert(0 <= c < o.len() && o[c].0 == key@);
                assert(c == p);
            }
            options.set(p, (key, value));
            let ghost n = options_view(options@);
            assert(n =~= o.update(p as int, (key@, v)));
            assert forall|q: int| 0 <= q < n.len() implies n[q].0 == o[q].0 by {}
            return;
        }
        p = p + 1;
    }
    let ghost v = option_value_view(value);
    options.push((key, value));
    assert(options_view(options@) =~= o.push((key@, v)));
    assert(!(exists|q: int| 0 <= q < o.len() && o[q].0 == key@));
}

pub struct AST {}

impl AST {
    /// Builds the document that `tokens` describe, or gives the first error met.
    pub fn parse(tokens: Vec<Token>) -> (r: Result<Expression, SyntaxError>)
        ensures
            match r {
                Ok(e) => e is Document && parse_document(tokens_view(tokens@)) == Ok::<
                    DocumentView,
                    SyntaxErrorView,
                >(e->Document_0@),
                Err(e) => parse_document(tokens_view(tokens@)) == Err::<
                    DocumentView,
                    SyntaxErrorView,
                >(e@),
            },
    {
        let ghost t = tokens_view(tokens@);
        let mut executable: Option<String> = None;
        let mut cursor = Cursor::new(tokens);
        let mut span_start: usize = 0;
        let mut span_end: usize = 0;
        if cursor.current_is(TokenKind::Comment) {
            let raw = cursor.current_raw();
            let marked = raw.as_str().unicode_len() >= 2 && raw.as_str().get_char(0) == '#'
                && raw.as_str().get_char(1) == '!';
            if marked {
                let span = cursor.current_span();
                span_start = span.start;
                span_end = span.end;
                executable = Some(raw);
                cursor.forward(1);
            }
        }
        assert(cursor.index == (if has_executable(t) { 1int } else { 0int }));
        let elements = match Self::parse_expressions_list(&mut cursor) {
            Ok(elements) => elements,
            Err(e) => {
                return Err(e);
            },
        };
        let n = elements.len();
        if n > 0 {
            span_end = elements[n - 1].to_span().end;
        }
        let document = Document { executable, elements, span: Span { start: span_start, end: span_end } };
        proof {
            let ev = elements_view(document.elements@);
            if n > 0 {
                assert(ev.last() == element_view(document.elements@[n - 1]));
            }
        }
        Ok(Expression::Document(document))
    }

    fn parse_expressions_list(cursor: &mut Cursor) -> (r: Result<Vec<Expression>, SyntaxError>)
        requires
            old(cursor).wf(),
        ensures
            final(cursor).items == old(cursor).items,
            match r {
                Ok(v) => parse_list(old(cursor).toks(), old(cursor).index as int) == Ok::<
                    Seq<ElementView>,
                    SyntaxErrorView,
                >(elements_view(v@)),
                Err(e) => parse_list(old(cursor).toks(), old(cursor).index as int) == Err::<
                    Seq<ElementView>,
                    SyntaxErrorView,
                >(e@),
            },
    {
        let ghost t = cursor.toks();
        let ghost i0 = cursor.index as int;
        let mut list: Vec<Expression> = Vec::new();
        while cursor.index < cursor.items.len()
            invariant
                cursor.wf(),
                cursor.items == old(cursor).items,
                t == cursor.toks(),
                i0 == old(cursor).index,
                parse_list(t, i0) == (match parse_list(t, cursor.index as int) {
                    Ok(rest) => Ok(elements_view(list@) + rest),
                    Err(e) => Err::<Seq<ElementView>, SyntaxErrorView>(e),
                }),
            decreases t.len() - cursor.index,
        {
            let ghost i = cursor.index as int;
            if cursor.current_is(TokenKind::Newline) || cursor.current_is(TokenKind::Space) {
                cursor.forward(1);
            } else if cursor.current_is(TokenKind::Comment) || cursor.current_is(
                TokenKind::Keyword,
            ) {
                let step = if cursor.current_is(TokenKind::Comment) {
                    Self::parse_block_comment(cursor)
                } else {
                    match Self::parse_variable(cursor, None) {
                        Ok(v) => Ok(Expression::Variable(v)),
                        Err(e) => Err(e),
                    }
                };
                match step {
                    Ok(element) => {
                        let ghost before = list@;
                        let ghost el = element_view(element);
                        list.push(element);
                        assert(elements_view(list@) =~= elements_view(before) + seq![el]);
                        assert forall|rest: Seq<ElementView>|
                            elements_view(before) + (seq![el] + rest) =~= elements_view(list@)
                                + rest by {}
                    },
                    Err(e) => {
                        return Err(e);
                    },
                }
            } else {
                let span = cursor.current_span();
                return Err(SyntaxError::new("Unexpected type".to_owned(), span));
            }
        }
        assert(elements_view(list@) + Seq::<ElementView>::empty() =~= elements_view(list@));
        Ok(list)
    }

    fn parse_block_comment(cursor: &mut Cursor) -> (r: Result<Expression, SyntaxError>)
        requires
            old(cursor).wf(),
            has_kind(old(cursor).toks(), old(cursor).index as int, TokenKind::Comment),
        ensures
            final(cursor).wf(),
            final(cursor).items == old(cursor).items,
            match r {
                Ok(e) => parse_comment_spec(old(cursor).toks(), old(cursor).index as int) == Ok::<
                    (ElementView, int),
                    SyntaxErrorView,
                >((element_view(e), final(cursor).index as int)) && old(cursor).index
                    < final(cursor).index,
                Err(e) => parse_comment_spec(old(cursor).toks(), old(cursor).index as int)
                    == Err::<(ElementView, int), SyntaxErrorView>(e@),
            },
    {
        let ghost t = cursor.toks();
        let ghost i0 = cursor.index as int;
        let first = cursor.current_span();
        let span_start = first.start;
        let mut span_end = first.end;
        let mut raw: Vec<String> = Vec::new();
        while cursor.current_is(TokenKind::Space) || cursor.current_is(TokenKind::Comment)
            invariant
                cursor.wf(),
                cursor.items == old(cursor).items,
                t == cursor.toks(),
                i0 == old(cursor).index,
                i0 <= cursor.index,
                has_kind(t, i0, TokenKind::Comment),
                raw@.len() > 0 ==> i0 < cursor.index,
                cursor.index == i0 ==> raw@.len() == 0 && span_end == first.end,
                ({
                    let all = comment_lines(t, i0, first.end);
                    let rest = comment_lines(t, cursor.index as int, span_end);
                    all == (raw@.map_values(|s: String| s@) + rest.0, rest.1, rest.2)
                }),
            decreases t.len() - cursor.index,
        {
            let ghost i = cursor.index as int;
            let ghost before = raw@;
            if cursor.current_is(TokenKind::Space) {
                cursor.forward(1);
            } else {
                let line = cursor.current_raw();
                let ghost l = line@;
                raw.push(line);
                span_end = cursor.current_span().end;
                let newline_next = match cursor.select_next() {
                    Some(token) => token.kind == TokenKind::Newline,
                    None => false,
                };
                if newline_next {
                    cursor.forward(1);
                }
                cursor.forward(1);
                assert(raw@.map_values(|s: String| s@) =~= before.map_values(|s: String| s@)
                    + seq![l]);
                assert forall|rest: Seq<Seq<char>>|
                    before.map_values(|s: String| s@) + (seq![l] + rest) =~= raw@.map_values(
                        |s: String| s@,
                    ) + rest by {}
            }
        }
        assert(raw@.map_values(|s: String| s@) + Seq::<Seq<char>>::empty() =~= raw@.map_values(
            |s: String| s@,
        ));
        let block = CommentBlock { span: Span { start: span_start, end: span_end }, raw };
        if cursor.current_is(TokenKind::Keyword) {
            match Self::parse_variable(cursor, Some(block)) {
                Ok(v) => Ok(Expression::Variable(v)),
                Err(e) => Err(e),
            }
        } else {
            Ok(Expression::CommentBlock(block))
        }
    }

    fn parse_variable(cursor: &mut Cursor, comment: Option<CommentBlock>) -> (r: Result<
        Variable,
        SyntaxError,
    >)
        requires
            old(cursor).wf(),
            has_kind(old(cursor).toks(), old(cursor).index as int, TokenKind::Keyword),
        ensures
            final(cursor).wf(),
            final(cursor).items == old(cursor).items,
            step_view(r, final(cursor).index as int) == parse_variable_spec(
                old(cursor).toks(),
                old(cursor).index as int,
                match comment {
                    Some(c) => Some(c@),
                    None => None,
                },
            ),
            r is Ok ==> old(cursor).index < final(cursor).index,
    {
        let space_kinds = vec![TokenKind::Space];
        assert(space_kinds@ =~= spaces());
        let mut variable = Variable {
            span: cursor.current_span(),
            comment,
            name: cursor.current_raw(),
            variable_type: None,
            options_variable_type: None,
            default_value: None,
            nullable: false,
        };
        cursor.forward(1);
        cursor.forward_some_kind(&space_kinds);
        if cursor.current_is(TokenKind::Colon) {
            cursor.forward(1);
            cursor.forward_some_kind(&space_kinds);
            variable = match Self::parse_type(cursor, variable) {
                Ok(v) => v,
                Err(e) => {
                    return Err(e);
                },
            };
        }
        Self::parse_default(cursor, variable)
    }

    /// The type after a colon, with its options block and its `?`.
    fn parse_type(cursor: &mut Cursor, variable: Variable) -> (r: Result<Variable, SyntaxError>)
        requires
            old(cursor).wf(),
        ensures
            final(cursor).wf(),
            final(cursor).items == old(cursor).items,
            step_view(r, final(cursor).index as int) == type_part(
                old(cursor).toks(),
                old(cursor).index as int,
                variable@,
            ),
            r is Ok ==> old(cursor).index < final(cursor).index,
    {
        let mut variable = variable;
        let space_kinds = vec![TokenKind::Space];
        assert(space_kinds@ =~= spaces());
        let blank_kinds = vec![TokenKind::Space, TokenKind::Newline];
        assert(blank_kinds@ =~= blanks());
        match cursor.assert_current_kind(TokenKind::Keyword) {
            Ok(_) => {},
            Err(e) => {
                return Err(e);
            },
        }
        variable.variable_type = Some(cursor.current_raw());
        variable.span.end = cursor.current_span().end;
        cursor.forward(1);
        cursor.forward_some_kind(&space_kinds);
        if cursor.current_is(TokenKind::LessThan) {
            cursor.forward(1);
            cursor.forward_some_kind(&blank_kinds);
            let options = match Self::parse_options(cursor) {
                Ok(options) => options,
                Err(e) => {
                    return Err(e);
                },
            };
            let greater_than_end = match cursor.assert_current_kind(TokenKind::GreaterThan) {
                Ok(token) => token.span.end,
                Err(e) => {
                    return Err(e);
                },
            };
            variable.span.end = greater_than_end;
            cursor.forward(1);
            variable.options_variable_type = Some(options);
            cursor.forward_some_kind(&space_kinds);
        }
        if cursor.current_is(TokenKind::QuestionMark) {
            variable.span.end = cursor.current_span().end;
            cursor.forward(1);
            variable.nullable = true;
        }
        Ok(variable)
    }

    /// The options of a `< ... >` block, up to the first token that is not a keyword.
    fn parse_options(cursor: &mut Cursor) -> (r: Result<Vec<(String, Option<OptionValue>)>, SyntaxError>)
        requires
            old(cursor).wf(),
        ensures
            final(cursor).wf(),
            final(cursor).items == old(cursor).items,
            old(cursor).index <= final(cursor).index,
            match r {
                Ok(options) => parse_options_spec(old(cursor).toks(), old(cursor).index as int, Seq::empty())
                    == Ok::<(OptionsView, int), SyntaxErrorView>((options_view(options@), final(cursor).index as int)),
                Err(e) => parse_options_spec(old(cursor).toks(), old(cursor).index as int, Seq::empty())
                    == Err::<(OptionsView, int), SyntaxErrorView>(e@),
            },
    {
        let space_kinds = vec![TokenKind::Space];
        assert(space_kinds@ =~= spaces());
        let blank_kinds = vec![TokenKind::Space, TokenKind::Newline];
        assert(blank_kinds@ =~= blanks());
        let ghost t = cursor.toks();
        let ghost j0 = cursor.index as int;
        let mut options: Vec<(String, Option<OptionValue>)> = Vec::new();
        assert(options_view(options@) =~= Seq::empty());
        while cursor.current_is(TokenKind::Keyword)
            invariant
                cursor.wf(),
                cursor.items == old(cursor).items,
                j0 == old(cursor).index,
                t == cursor.toks(),
                j0 <= cursor.index,
                blank_kinds@ == blanks(),
                space_kinds@ == spaces(),
                keys_unique(options_view(options@)),
                parse_options_spec(t, j0, Seq::empty()) == parse_options_spec(
                    t,
                    cursor.index as int,
                    options_view(options@),
                ),
            decreases t.len() - cursor.index,
        {
            let key = cursor.current_raw();
            cursor.forward(1);
            cursor.forward_some_kind(&blank_kinds);
            if cursor.current_is(TokenKind::Equal) {
                cursor.forward(1);
                cursor.forward_some_kind(&space_kinds);
                let value = match Self::parse_items_option_value(cursor) {
                    Ok(v) => v,
                    Err(e) => {
                        return Err(e);
                    },
                };
                cursor.forward_some_kind(&blank_kinds);
                insert_option(&mut options, key, Some(value));
            } else {
                insert_option(&mut options, key, None);
            }
        }
        Ok(options)
    }

    /// The part `= literal` of a declaration, if it is there.
    fn parse_default(cursor: &mut Cursor, variable: Variable) -> (r: Result<Variable, SyntaxError>)
        requires
            old(cursor).wf(),
        ensures
            final(cursor).wf(),
            final(cursor).items == old(cursor).items,
            step_view(r, final(cursor).index as int) == default_part(
                old(cursor).toks(),
                old(cursor).index as int,
                variable@,
            ),
            r is Ok ==> old(cursor).index <= final(cursor).index,
    {
        let mut variable = variable;
        let space_kinds = vec![TokenKind::Space];
        assert(space_kinds@ =~= spaces());
        if cursor.current_is(TokenKind::Equal) {
            cursor.forward(1);
            cursor.forward_some_kind(&space_kinds);
            let value = match Self::parse_items_default_value(cursor) {
                Ok(v) => v,
                Err(e) => {
                    return Err(e);
                },
            };
            variable.span.end = value.span.end;
            variable.default_value = Some(value);
        }
        Ok(variable)
    }

    fn parse_items_default_value(cursor: &mut Cursor) -> (r: Result<DefaultValue, SyntaxError>)
        requires
            old(cursor).wf(),
        ensures
            final(cursor).wf(),
            final(cursor).items == old(cursor).items,
            result_view(r) == literal_at(old(cursor).toks(), old(cursor).index as int),
            r is Ok ==> final(cursor).index == old(cursor).index + 1,
            old(cursor).index <= final(cursor).index,
    {
        match Self::literal(cursor) {
            Ok((span, value)) => Ok(DefaultValue { span, value }),
            Err(e) => Err(e),
        }
    }

    fn parse_items_option_value(cursor: &mut Cursor) -> (r: Result<OptionValue, SyntaxError>)
        requires
            old(cursor).wf(),
        ensures
            final(cursor).wf(),
            final(cursor).items == old(cursor).items,
            result_view(r) == literal_at(old(cursor).toks(), old(cursor).index as int),
            r is Ok ==> final(cursor).index == old(cursor).index + 1,
            old(cursor).index <= final(cursor).index,
    {
        match Self::literal(cursor) {
            Ok((span, value)) => Ok(OptionValue { span, value }),
            Err(e) => Err(e),
        }
    }

    /// The span and text of the string or number token at the cursor.
    fn literal(cursor: &mut Cursor) -> (r: Result<(Span, String), SyntaxError>)
        requires
            old(cursor).wf(),
        ensures
            final(cursor).wf(),
            old(cursor).index <= final(cursor).index,
            final(cursor).items == old(cursor).items,
            match r {
                Ok((span, value)) => literal_at(old(cursor).toks(), old(cursor).index as int)
                    == Ok::<LiteralView, SyntaxErrorView>(LiteralView { span, value: value@ })
                    && final(cursor).index == old(cursor).index + 1,
                Err(e) => literal_at(old(cursor).toks(), old(cursor).index as int) == Err::<
                    LiteralView,
                    SyntaxErrorView,
                >(e@),
            },
    {
        if cursor.current_is(TokenKind::String) || cursor.current_is(TokenKind::Number) {
            let span = cursor.current_span();
            let value = cursor.current_raw();
            cursor.forward(1);
            Ok((span, value))
        } else if cursor.index < cursor.items.len() {
            Err(SyntaxError::new("Unexpected token".to_owned(), cursor.current_span()))
        } else {
            Err(SyntaxError::new("Unexpected token".to_owned(), cursor.end_span()))
        }
    }
}

} // verus!
