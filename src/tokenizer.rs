use crate::span::Span;
use crate::syntax_error::{SyntaxError, SyntaxErrorView};
use crate::text::chars_of;
use vstd::prelude::*;

verus! {

/// The classes of tokens that the tokenizer produces.
#[derive(Debug, Clone, Copy, PartialEq, Eq, Structural)]
pub enum TokenKind {
    Comment,
    Newline,
    Space,
    Colon,
    Equal,
    String,
    Keyword,
    Number,
    QuestionMark,
    LessThan,
    GreaterThan,
}

/// The name of a token kind, as it appears in messages.
pub open spec fn kind_name(kind: TokenKind) -> Seq<char> {
    match kind {
        TokenKind::Comment => "comment"@,
        TokenKind::Newline => "newline"@,
        TokenKind::Space => "space"@,
        TokenKind::Colon => "colon"@,
        TokenKind::Equal => "equal"@,
        TokenKind::String => "string"@,
        TokenKind::Keyword => "keyword"@,
        TokenKind::Number => "number"@,
        TokenKind::QuestionMark => "question_mark"@,
        TokenKind::LessThan => "less_than"@,
        TokenKind::GreaterThan => "greater_than"@,
    }
}

impl TokenKind {
    pub fn name(&self) -> (r: &'static str)
        ensures
            r@ == kind_name(*self),
    {
        match self {
            TokenKind::Comment => "comment",
            TokenKind::Newline => "newline",
            TokenKind::Space => "space",
            TokenKind::Colon => "colon",
            TokenKind::Equal => "equal",
            TokenKind::String => "string",
            TokenKind::Keyword => "keyword",
            TokenKind::Number => "number",
            TokenKind::QuestionMark => "question_mark",
            TokenKind::LessThan => "less_than",
            TokenKind::GreaterThan => "greater_than",
        }
    }
}

/// A classified piece of source text: its kind, its text and where it stands.
#[derive(Debug, Clone)]
pub struct Token {
    pub kind: TokenKind,
    pub raw: String,
    pub span: Span,
}

/// The mathematical content of a `Token`.
pub struct TokenView {
    pub kind: TokenKind,
    pub raw: Seq<char>,
    pub span: Span,
}

impl View for Token {
    type V = TokenView;

    open spec fn view(&self) -> TokenView {
        TokenView { kind: self.kind, raw: self.raw@, span: self.span }
    }
}

pub open spec fn tokens_view(tokens: Seq<Token>) -> Seq<TokenView> {
    tokens.map_values(|t: Token| t@)
}

pub open spec fn span_of(start: int, end: int) -> Span {
    Span { start: start as usize, end: end as usize }
}

/// The token of kind `kind` that covers `s[start..end)`.
pub open spec fn token_at(kind: TokenKind, s: Seq<char>, start: int, end: int) -> TokenView {
    TokenView { kind, raw: s.subrange(start, end), span: span_of(start, end) }
}

pub open spec fn error_at(message: Seq<char>, start: int, end: int) -> SyntaxErrorView {
    SyntaxErrorView { message, span: span_of(start, end) }
}

pub open spec fn is_digit(c: char) -> bool {
    '0' <= c && c <= '9'
}

pub open spec fn is_keyword_start(c: char) -> bool {
    ('a' <= c && c <= 'z') || ('A' <= c && c <= 'Z') || c == '_'
}

pub open spec fn is_keyword_char(c: char) -> bool {
    is_keyword_start(c) || is_digit(c)
}

pub open spec fn is_space(c: char) -> bool {
    c == ' ' || c == '\t'
}

pub open spec fn msg_unexpected_token() -> Seq<char> {
    "Unexpected token"@
}

pub open spec fn msg_invalid_token() -> Seq<char> {
    "Invalid or unexpected token"@
}

pub open spec fn msg_one_underscore() -> Seq<char> {
    "Only one underscore is allowed as numeric separator"@
}

/// The first position at or after `i` that holds a newline, or the end of `s`.
pub open spec fn line_end(s: Seq<char>, i: int) -> int
    decreases s.len() - i,
{
    if i < 0 || i >= s.len() {
        s.len() as int
    } else if s[i] == '\n' {
        i
    } else {
        line_end(s, i + 1)
    }
}

pub proof fn lemma_line_end_bounds(s: Seq<char>, i: int)
    requires
        0 <= i,
    ensures
        i <= s.len() ==> i <= line_end(s, i) <= s.len(),
        line_end(s, i) < s.len() ==> s[line_end(s, i)] == '\n',
    decreases s.len() - i,
{
    if 0 <= i < s.len() && s[i] != '\n' {
        lemma_line_end_bounds(s, i + 1);
    }
}

/// The end of the run of spaces and tabs that starts at `i`.
pub open spec fn spaces_end(s: Seq<char>, i: int) -> int
    decreases s.len() - i,
{
    if 0 <= i < s.len() && is_space(s[i]) {
        spaces_end(s, i + 1)
    } else {
        i
    }
}

/// The end of the run of keyword characters that starts at `i`.
pub open spec fn keyword_end(s: Seq<char>, i: int) -> int
    decreases s.len() - i,
{
    if 0 <= i < s.len() && is_keyword_char(s[i]) {
        keyword_end(s, i + 1)
    } else {
        i
    }
}

/// The position of the quote that closes a string whose contents start at `j`,
/// where a backslash escapes the character after it.
pub open spec fn string_close(s: Seq<char>, j: int) -> Option<int>
    decreases s.len() + 2 - j,
{
    if j < 0 || j >= s.len() {
        None
    } else if s[j] == '\\' {
        string_close(s, j + 2)
    } else if s[j] == '"' {
        Some(j)
    } else {
        string_close(s, j + 1)
    }
}

/// Where a number literal scanned from `j` ends, or the message of its fault and where
/// the scan stood; `decimal` tells whether a fraction was already seen.
pub open spec fn number_end(s: Seq<char>, j: int, decimal: bool) -> Result<int, (Seq<char>, int)>
    decreases s.len() - j,
{
    if j < 0 || j >= s.len() {
        Ok(j)
    } else if is_digit(s[j]) {
        number_end(s, j + 1, decimal)
    } else if s[j] == '_' {
        if !(j + 1 < s.len() && is_digit(s[j + 1])) {
            Err((msg_one_underscore(), j))
        } else {
            number_end(s, j + 1, decimal)
        }
    } else if s[j] == '.' {
        if decimal {
            Err((msg_unexpected_token(), j))
        } else if !(j + 1 < s.len() && is_digit(s[j + 1])) {
            Err((msg_invalid_token(), j))
        } else {
            number_end(s, j + 1, true)
        }
    } else {
        Ok(j)
    }
}

/// The token that starts at position `i` of `s`, with the position after it.
pub open spec fn scan_token(s: Seq<char>, i: int) -> Result<(TokenView, int), SyntaxErrorView> {
    let c = s[i];
    if c == '#' {
        let e = line_end(s, i + 1);
        Ok((token_at(TokenKind::Comment, s, i, e), e))
    } else if c == '\n' {
        Ok((token_at(TokenKind::Newline, s, i, i + 1), i + 1))
    } else if is_space(c) {
        let e = spaces_end(s, i);
        Ok((token_at(TokenKind::Space, s, i, e), e))
    } else if c == ':' {
        Ok((token_at(TokenKind::Colon, s, i, i + 1), i + 1))
    } else if c == '=' {
        Ok((token_at(TokenKind::Equal, s, i, i + 1), i + 1))
    } else if c == '"' {
        match string_close(s, i + 1) {
            Some(e) => Ok((token_at(TokenKind::String, s, i + 1, e), e + 1)),
            None => Err(error_at(msg_invalid_token(), i, s.len() as int)),
        }
    } else if is_keyword_start(c) {
        let e = keyword_end(s, i);
        Ok((token_at(TokenKind::Keyword, s, i, e), e))
    } else if is_digit(c) {
        match number_end(s, i, false) {
            Ok(e) => Ok((token_at(TokenKind::Number, s, i, e), e)),
            Err((m, j)) => Err(error_at(m, i, j)),
        }
    } else if c == '?' {
        Ok((token_at(TokenKind::QuestionMark, s, i, i + 1), i + 1))
    } else if c == '<' {
        Ok((token_at(TokenKind::LessThan, s, i, i + 1), i + 1))
    } else if c == '>' {
        Ok((token_at(TokenKind::GreaterThan, s, i, i + 1), i + 1))
    } else {
        Err(error_at(msg_unexpected_token(), i, i + 1))
    }
}

/// The tokens of `s` from position `i` on, or the first error met.
pub open spec fn tokens_from(s: Seq<char>, i: int) -> Result<Seq<TokenView>, SyntaxErrorView>
    decreases s.len() - i,
{
    if i < 0 || i >= s.len() {
        Ok(Seq::empty())
    } else {
        match scan_token(s, i) {
            Err(e) => Err(e),
            Ok((t, j)) => {
                if i < j <= s.len() {
                    match tokens_from(s, j) {
                        Ok(rest) => Ok(seq![t] + rest),
                        Err(e) => Err(e),
                    }
                } else {
                    Ok(Seq::empty())
                }
            },
        }
    }
}

/// The token sequence of a whole source text.
pub open spec fn tokenize_spec(s: Seq<char>) -> Result<Seq<TokenView>, SyntaxErrorView> {
    tokens_from(s, 0)
}

pub open spec fn in_ranges(c: char, ranges: Seq<(char, char)>) -> bool {
    exists|k: int| 0 <= k < ranges.len() && ranges[k].0 <= c && c <= ranges[k].1
}

/// A forward-only position over the characters of a source text.
pub struct Cursor {
    pub payload: String,
    pub chars: Vec<char>,
    pub index: usize,
}

impl Cursor {
    pub open spec fn wf(&self) -> bool {
        &&& self.chars@ == self.payload@
        &&& self.index <= self.chars@.len()
        &&& self.chars@.len() <= usize::MAX
    }

    pub open spec fn text(&self) -> Seq<char> {
        self.chars@
    }

    pub fn new(index: usize, payload: &str) -> (r: Self)
        requires
            index <= payload@.len(),
        ensures
            r.wf(),
            r.text() == payload@,
            r.index == index,
    {
        let chars = chars_of(payload);
        let _len = chars.len();
        Cursor { payload: payload.to_owned(), chars, index }
    }

    pub fn current_char(&self) -> (r: Option<char>)
        requires
            self.wf(),
        ensures
            r == (if self.index < self.text().len() {
                Some(self.text()[self.index as int])
            } else {
                None
            }),
    {
        if self.index < self.chars.len() {
            Some(self.chars[self.index])
        } else {
            None
        }
    }

    pub fn next_char(&self) -> (r: Option<char>)
        requires
            self.wf(),
        ensures
            r == (if self.index + 1 < self.text().len() {
                Some(self.text()[self.index + 1])
            } else {
                None
            }),
    {
        if self.index < self.chars.len() && self.index + 1 < self.chars.len() {
            Some(self.chars[self.index + 1])
        } else {
            None
        }
    }

    pub fn current_matches_char(&self, val: char) -> (r: bool)
        requires
            self.wf(),
        ensures
            r == (self.index < self.text().len() && self.text()[self.index as int] == val),
    {
        match self.current_char() {
            Some(c) => c == val,
            None => false,
        }
    }

    pub fn next_matches_char(&self, val: char) -> (r: bool)
        requires
            self.wf(),
        ensures
            r == (self.index + 1 < self.text().len() && self.text()[self.index + 1] == val),
    {
        match self.next_char() {
            Some(c) => c == val,
            None => false,
        }
    }

    /// Whether the current character lies in one of the inclusive ranges.
    pub fn current_matches_range_char(&self, vec_ranges: &Vec<(char, char)>) -> (r: bool)
        requires
            self.wf(),
        ensures
            r == (self.index < self.text().len() && in_ranges(
                self.text()[self.index as int],
                vec_ranges@,
            )),
    {
        match self.current_char() {
            Some(c) => char_in_ranges(c, vec_ranges),
            None => false,
        }
    }

    /// Whether the character after the current one lies in one of the inclusive ranges.
    pub fn next_matches_range_char(&self, vec_ranges: &Vec<(char, char)>) -> (r: bool)
        requires
            self.wf(),
        ensures
            r == (self.index + 1 < self.text().len() && in_ranges(
                self.text()[self.index + 1],
                vec_ranges@,
            )),
    {
        match self.next_char() {
            Some(c) => char_in_ranges(c, vec_ranges),
            None => false,
        }
    }

    pub fn has_current(&self) -> (r: bool)
        requires
            self.wf(),
        ensures
            r == (self.index < self.text().len()),
    {
        self.index < self.chars.len()
    }

    pub fn has_next(&self) -> (r: bool)
        requires
            self.wf(),
        ensures
            r == (self.index + 1 < self.text().len()),
    {
        self.index < self.chars.len() && self.index + 1 < self.chars.len()
    }

    pub fn forward(&mut self, positions: usize)
        requires
            old(self).wf(),
            old(self).index + positions <= old(self).text().len(),
        ensures
            final(self).wf(),
            final(self).text() == old(self).text(),
            final(self).payload == old(self).payload,
            final(self).index == old(self).index + positions,
    {
        self.index = self.index + positions;
    }

    /// The characters that `span` covers.
    pub fn get_by_span(&self, span: &Span) -> (r: String)
        requires
            self.wf(),
            span.within(self.text().len() as int),
        ensures
            r@ == self.text().subrange(span.start as int, span.end as int),
    {
        span.substring(self.payload.as_str())
    }
}

fn char_in_ranges(c: char, ranges: &Vec<(char, char)>) -> (r: bool)
    ensures
        r == in_ranges(c, ranges@),
{
    let mut k: usize = 0;
    while k < ranges.len()
        invariant
            k <= ranges.len(),
            forall|m: int| 0 <= m < k ==> !(ranges@[m].0 <= c && c <= ranges@[m].1),
        decreases ranges.len() - k,
    {
        if ranges[k].0 <= c && c <= ranges[k].1 {
            return true;
        }
        k = k + 1;
    }
    false
}

fn space_ranges() -> (r: Vec<(char, char)>)
    ensures
        forall|c: char| in_ranges(c, r@) <==> is_space(c),
{
    let r = vec![(' ', ' '), ('\t', '\t')];
    assert forall|c: char| in_ranges(c, r@) <==> is_space(c) by {
        if is_space(c) {
            if c == ' ' {
                assert(r@[0].0 <= c && c <= r@[0].1);
            } else {
                assert(r@[1].0 <= c && c <= r@[1].1);
            }
        }
    }
    r
}

fn keyword_start_ranges() -> (r: Vec<(char, char)>)
    ensures
        forall|c: char| in_ranges(c, r@) <==> is_keyword_start(c),
{
    let r = vec![('a', 'z'), ('A', 'Z'), ('_', '_')];
    assert forall|c: char| in_ranges(c, r@) <==> is_keyword_start(c) by {
        if 'a' <= c && c <= 'z' {
            assert(r@[0].0 <= c && c <= r@[0].1);
        } else if 'A' <= c && c <= 'Z' {
            assert(r@[1].0 <= c && c <= r@[1].1);
        } else if c == '_' {
            assert(r@[2].0 <= c && c <= r@[2].1);
        }
    }
    r
}

fn keyword_ranges() -> (r: Vec<(char, char)>)
    ensures
        forall|c: char| in_ranges(c, r@) <==> is_keyword_char(c),
{
    let r = vec![('a', 'z'), ('A', 'Z'), ('0', '9'), ('_', '_')];
    assert forall|c: char| in_ranges(c, r@) <==> is_keyword_char(c) by {
        if 'a' <= c && c <= 'z' {
            assert(r@[0].0 <= c && c <= r@[0].1);
        } else if 'A' <= c && c <= 'Z' {
            assert(r@[1].0 <= c && c <= r@[1].1);
        } else if '0' <= c && c <= '9' {
            assert(r@[2].0 <= c && c <= r@[2].1);
        } else if c == '_' {
            assert(r@[3].0 <= c && c <= r@[3].1);
        }
    }
    r
}

fn digit_ranges() -> (r: Vec<(char, char)>)
    ensures
        forall|c: char| in_ranges(c, r@) <==> is_digit(c),
{
    let r = vec![('0', '9')];
    assert forall|c: char| in_ranges(c, r@) <==> is_digit(c) by {
        if is_digit(c) {
            assert(r@[0].0 <= c && c <= r@[0].1);
        }
    }
    r
}

impl Token {
    fn new(kind: TokenKind, cursor: &Cursor, span: Span) -> (r: Self)
        requires
            cursor.wf(),
            span.within(cursor.text().len() as int),
        ensures
            r@ == token_at(kind, cursor.text(), span.start as int, span.end as int),
    {
        Token { kind, raw: cursor.get_by_span(&span), span }
    }
}

/// What a scan of one token at `i` gave, as seen from a cursor that now stands at `index`.
pub open spec fn scanned(s: Seq<char>, i: int, r: Result<Token, SyntaxError>, index: int) -> bool {
    match r {
        Ok(t) => scan_token(s, i) == Ok::<(TokenView, int), SyntaxErrorView>((t@, index)) && i
            < index <= s.len(),
        Err(e) => scan_token(s, i) == Err::<(TokenView, int), SyntaxErrorView>(e@),
    }
}

pub struct Tokenizer {}

impl Tokenizer {
    /// Splits `payload` into tokens, or reports the first character that cannot start one.
    pub fn parse(payload: &str) -> (r: Result<Vec<Token>, SyntaxError>)
        ensures
            match r {
                Ok(tokens) => tokenize_spec(payload@) == Ok::<Seq<TokenView>, SyntaxErrorView>(
                    tokens_view(tokens@),
                ),
                Err(e) => tokenize_spec(payload@) == Err::<Seq<TokenView>, SyntaxErrorView>(e@),
            },
    {
        let mut cursor = Cursor::new(0, payload);
        Self::parse_by_cursor(&mut cursor)
    }

    fn parse_by_cursor(cursor: &mut Cursor) -> (r: Result<Vec<Token>, SyntaxError>)
        requires
            old(cursor).wf(),
        ensures
            match r {
                Ok(tokens) => tokens_from(old(cursor).text(), old(cursor).index as int) == Ok::<
                    Seq<TokenView>,
                    SyntaxErrorView,
                >(tokens_view(tokens@)),
                Err(e) => tokens_from(old(cursor).text(), old(cursor).index as int) == Err::<
                    Seq<TokenView>,
                    SyntaxErrorView,
                >(e@),
            },
    {
        let ghost s = cursor.text();
        let ghost start = cursor.index as int;
        let mut tokens: Vec<Token> = Vec::new();
        let spaces = space_ranges();
        let keyword_starts = keyword_start_ranges();
        let digits = digit_ranges();
        while cursor.has_current()
            invariant
                cursor.wf(),
                cursor.text() == s,
                s == old(cursor).text(),
                start == old(cursor).index,
                start <= cursor.index,
                tokens_from(s, start) == (match tokens_from(s, cursor.index as int) {
                    Ok(rest) => Ok(tokens_view(tokens@) + rest),
                    Err(e) => Err::<Seq<TokenView>, SyntaxErrorView>(e),
                }),
                forall|c: char| in_ranges(c, spaces@) <==> is_space(c),
                forall|c: char| in_ranges(c, keyword_starts@) <==> is_keyword_start(c),
                forall|c: char| in_ranges(c, digits@) <==> is_digit(c),
            decreases s.len() - cursor.index,
        {
            let ghost i = cursor.index as int;
            let step = if cursor.current_matches_char('#') {
                Self::parse_comment(cursor)
            } else if cursor.current_matches_char('\n') {
                Self::parse_newline(cursor)
            } else if cursor.current_matches_range_char(&spaces) {
                Self::parse_spaces(cursor)
            } else if cursor.current_matches_char(':') {
                Self::parse_colon(cursor)
            } else if cursor.current_matches_char('=') {
                Self::parse_equal(cursor)
            } else if cursor.current_matches_char('"') {
                Self::parse_string(cursor)
            } else if cursor.current_matches_range_char(&keyword_starts) {
                Self::parse_keyword(cursor)
            } else if cursor.current_matches_range_char(&digits) {
                Self::parse_number(cursor)
            } else if cursor.current_matches_char('?') {
                Self::parse_question_mark(cursor)
            } else if cursor.current_matches_char('<') {
                Self::parse_less_than(cursor)
            } else if cursor.current_matches_char('>') {
                Self::parse_greater_than(cursor)
            } else {
                let span = Span { start: cursor.index, end: cursor.index + 1 };
                Err(SyntaxError::new("Unexpected token".to_owned(), span))
            };
            assert(scanned(s, i, step, cursor.index as int));
            match step {
                Ok(token) => {
                    let ghost before = tokens@;
                    tokens.push(token);
                    assert(tokens_view(tokens@) =~= tokens_view(before) + seq![token@]);
                    assert forall|rest: Seq<TokenView>|
                        tokens_view(before) + (seq![token@] + rest) =~= tokens_view(tokens@)
                            + rest by {}
                },
                Err(e) => {
                    return Err(e);
                },
            }
        }
        assert(tokens_view(tokens@) + Seq::<TokenView>::empty() =~= tokens_view(tokens@));
        Ok(tokens)
    }

    fn parse_comment(cursor: &mut Cursor) -> (r: Result<Token, SyntaxError>)
        requires
            old(cursor).wf(),
            old(cursor).index < old(cursor).text().len(),
            old(cursor).text()[old(cursor).index as int] == '#',
        ensures
            final(cursor).wf(),
            final(cursor).text() == old(cursor).text(),
            scanned(old(cursor).text(), old(cursor).index as int, r, final(cursor).index as int),
    {
        let ghost s = cursor.text();
        let span_start = cursor.index;
        cursor.forward(1);
        while cursor.has_current() && !cursor.current_matches_char('\n')
            invariant
                cursor.wf(),
                cursor.text() == s,
                span_start < cursor.index,
                line_end(s, span_start + 1) == line_end(s, cursor.index as int),
            decreases s.len() - cursor.index,
        {
            cursor.forward(1);
        }
        let span = Span { start: span_start, end: cursor.index };
        Ok(Token::new(TokenKind::Comment, cursor, span))
    }

    fn parse_newline(cursor: &mut Cursor) -> (r: Result<Token, SyntaxError>)
        requires
            old(cursor).wf(),
            old(cursor).index < old(cursor).text().len(),
            old(cursor).text()[old(cursor).index as int] == '\n',
        ensures
            final(cursor).wf(),
            final(cursor).text() == old(cursor).text(),
            scanned(old(cursor).text(), old(cursor).index as int, r, final(cursor).index as int),
    {
        Self::parse_single(cursor, TokenKind::Newline)
    }

    fn parse_colon(cursor: &mut Cursor) -> (r: Result<Token, SyntaxError>)
        requires
            old(cursor).wf(),
            old(cursor).index < old(cursor).text().len(),
            old(cursor).text()[old(cursor).index as int] == ':',
        ensures
            final(cursor).wf(),
            final(cursor).text() == old(cursor).text(),
            scanned(old(cursor).text(), old(cursor).index as int, r, final(cursor).index as int),
    {
        Self::parse_single(cursor, TokenKind::Colon)
    }

    fn parse_equal(cursor: &mut Cursor) -> (r: Result<Token, SyntaxError>)
        requires
            old(cursor).wf(),
            old(cursor).index < old(cursor).text().len(),
            old(cursor).text()[old(cursor).index as int] == '=',
        ensures
            final(cursor).wf(),
            final(cursor).text() == old(cursor).text(),
            scanned(old(cursor).text(), old(cursor).index as int, r, final(cursor).index as int),
    {
        Self::parse_single(cursor, TokenKind::Equal)
    }

    fn parse_question_mark(cursor: &mut Cursor) -> (r: Result<Token, SyntaxError>)
        requires
            old(cursor).wf(),
            old(cursor).index < old(cursor).text().len(),
            old(cursor).text()[old(cursor).index as int] == '?',
        ensures
            final(cursor).wf(),
            final(cursor).text() == old(cursor).text(),
            scanned(old(cursor).text(), old(cursor).index as int, r, final(cursor).index as int),
    {
        Self::parse_single(cursor, TokenKind::QuestionMark)
    }

    fn parse_less_than(cursor: &mut Cursor) -> (r: Result<Token, SyntaxError>)
        requires
            old(cursor).wf(),
            old(cursor).index < old(cursor).text().len(),
            old(cursor).text()[old(cursor).index as int] == '<',
        ensures
            final(cursor).wf(),
            final(cursor).text() == old(cursor).text(),
            scanned(old(cursor).text(), old(cursor).index as int, r, final(cursor).index as int),
    {
        Self::parse_single(cursor, TokenKind::LessThan)
    }

    fn parse_greater_than(cursor: &mut Cursor) -> (r: Result<Token, SyntaxError>)
        requires
            old(cursor).wf(),
            old(cursor).index < old(cursor).text().len(),
            old(cursor).text()[old(cursor).index as int] == '>',
        ensures
            final(cursor).wf(),
            final(cursor).text() == old(cursor).text(),
            scanned(old(cursor).text(), old(cursor).index as int, r, final(cursor).index as int),
    {
        Self::parse_single(cursor, TokenKind::GreaterThan)
    }

    /// A token of one character of kind `kind`.
    fn parse_single(cursor: &mut Cursor, kind: TokenKind) -> (r: Result<Token, SyntaxError>)
        requires
            old(cursor).wf(),
            old(cursor).index < old(cursor).text().len(),
        ensures
            final(cursor).wf(),
            final(cursor).text() == old(cursor).text(),
            final(cursor).index == old(cursor).index + 1,
            r == Ok::<Token, SyntaxError>(r->Ok_0),
            r->Ok_0@ == token_at(
                kind,
                old(cursor).text(),
                old(cursor).index as int,
                old(cursor).index + 1,
            ),
    {
        let span_start = cursor.index;
        cursor.forward(1);
        let span = Span { start: span_start, end: cursor.index };
        Ok(Token::new(kind, cursor, span))
    }

    fn parse_spaces(cursor: &mut Cursor) -> (r: Result<Token, SyntaxError>)
        requires
            old(cursor).wf(),
            old(cursor).index < old(cursor).text().len(),
            is_space(old(cursor).text()[old(cursor).index as int]),
        ensures
            final(cursor).wf(),
            final(cursor).text() == old(cursor).text(),
            scanned(old(cursor).text(), old(cursor).index as int, r, final(cursor).index as int),
    {
        let ghost s = cursor.text();
        let spaces = space_ranges();
        let span_start = cursor.index;
        while cursor.current_matches_range_char(&spaces)
            invariant
                cursor.wf(),
                cursor.text() == s,
                span_start <= cursor.index,
                spaces_end(s, span_start as int) == spaces_end(s, cursor.index as int),
                forall|c: char| in_ranges(c, spaces@) <==> is_space(c),
            decreases s.len() - cursor.index,
        {
            cursor.forward(1);
        }
        let span = Span { start: span_start, end: cursor.index };
        Ok(Token::new(TokenKind::Space, cursor, span))
    }

    fn parse_string(cursor: &mut Cursor) -> (r: Result<Token, SyntaxError>)
        requires
            old(cursor).wf(),
            old(cursor).index < old(cursor).text().len(),
            old(cursor).text()[old(cursor).index as int] == '"',
        ensures
            final(cursor).wf(),
            final(cursor).text() == old(cursor).text(),
            scanned(old(cursor).text(), old(cursor).index as int, r, final(cursor).index as int),
    {
        let ghost s = cursor.text();
        let quote_start = cursor.index;
        cursor.forward(1);
        let span_start = cursor.index;
        while cursor.has_current() && !cursor.current_matches_char('"')
            invariant
                cursor.wf(),
                cursor.text() == s,
                span_start <= cursor.index,
                string_close(s, span_start as int) == string_close(s, cursor.index as int),
            decreases s.len() - cursor.index,
        {
            let ghost j = cursor.index as int;
            if cursor.current_matches_char('\\') && cursor.has_next() {
                cursor.forward(2);
            } else {
                if cursor.current_matches_char('\\') {
                    assert(string_close(s, j + 2) == None::<int>);
                }
                cursor.forward(1);
            }
        }
        if !cursor.has_current() {
            let span = Span { start: quote_start, end: cursor.index };
            return Err(SyntaxError::new("Invalid or unexpected token".to_owned(), span));
        }
        let span = Span { start: span_start, end: cursor.index };
        let token = Token::new(TokenKind::String, cursor, span);
        cursor.forward(1);
        Ok(token)
    }

    fn parse_keyword(cursor: &mut Cursor) -> (r: Result<Token, SyntaxError>)
        requires
            old(cursor).wf(),
            old(cursor).index < old(cursor).text().len(),
            is_keyword_start(old(cursor).text()[old(cursor).index as int]),
        ensures
            final(cursor).wf(),
            final(cursor).text() == old(cursor).text(),
            scanned(old(cursor).text(), old(cursor).index as int, r, final(cursor).index as int),
    {
        let ghost s = cursor.text();
        let keyword_chars = keyword_ranges();
        let span_start = cursor.index;
        while cursor.current_matches_range_char(&keyword_chars)
            invariant
                cursor.wf(),
                cursor.text() == s,
                span_start <= cursor.index,
                keyword_end(s, span_start as int) == keyword_end(s, cursor.index as int),
                forall|c: char| in_ranges(c, keyword_chars@) <==> is_keyword_char(c),
            decreases s.len() - cursor.index,
        {
            cursor.forward(1);
        }
        let span = Span { start: span_start, end: cursor.index };
        Ok(Token::new(TokenKind::Keyword, cursor, span))
    }

    fn parse_number(cursor: &mut Cursor) -> (r: Result<Token, SyntaxError>)
        requires
            old(cursor).wf(),
            old(cursor).index < old(cursor).text().len(),
            is_digit(old(cursor).text()[old(cursor).index as int]),
        ensures
            final(cursor).wf(),
            final(cursor).text() == old(cursor).text(),
            scanned(old(cursor).text(), old(cursor).index as int, r, final(cursor).index as int),
    {
        let ghost s = cursor.text();
        let digits = digit_ranges();
        let span_start = cursor.index;
        let mut decimal = false;
        while cursor.has_current()
            invariant_except_break
                cursor.wf(),
                cursor.text() == s,
                s == old(cursor).text(),
                span_start == old(cursor).index,
                span_start <= cursor.index,
                span_start < s.len(),
                is_digit(s[span_start as int]),
                forall|c: char| in_ranges(c, digits@) <==> is_digit(c),
                number_end(s, span_start as int, false) == number_end(
                    s,
                    cursor.index as int,
                    decimal,
                ),
            ensures
                cursor.wf(),
                cursor.text() == s,
                span_start < cursor.index,
                number_end(s, span_start as int, false) == Ok::<int, (Seq<char>, int)>(
                    cursor.index as int,
                ),
            decreases s.len() - cursor.index,
        {
            if cursor.current_matches_range_char(&digits) {
                cursor.forward(1);
            } else if cursor.current_matches_char('_') {
                if !cursor.next_matches_range_char(&digits) {
                    let span = Span { start: span_start, end: cursor.index };
                    return Err(
                        SyntaxError::new(
                            "Only one underscore is allowed as numeric separator".to_owned(),
                            span,
                        ),
                    );
                }
                cursor.forward(1);
            } else if cursor.current_matches_char('.') {
                if decimal {
                    let span = Span { start: span_start, end: cursor.index };
                    return Err(SyntaxError::new("Unexpected token".to_owned(), span));
                }
                if !cursor.next_matches_range_char(&digits) {
                    let span = Span { start: span_start, end: cursor.index };
                    return Err(SyntaxError::new("Invalid or unexpected token".to_owned(), span));
                }
                decimal = true;
                cursor.forward(1);
            } else {
                break;
            }
        }
        let span = Span { start: span_start, end: cursor.index };
        Ok(Token::new(TokenKind::Number, cursor, span))
    }
}

} // verus!
