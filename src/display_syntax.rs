use crate::span::Span;
use crate::text::chars_of;
use crate::tokenizer::{lemma_line_end_bounds, line_end};
use vstd::prelude::*;

verus! {

/// How a diagnostic is drawn.
pub struct DisplaySyntaxDebugOptions {
    /// Printed in the trailing `at` line, when there is one.
    pub location: Option<String>,
    /// Print every line of the source, not only those the span touches.
    pub print_full: bool,
    /// Draw a line of marks under the part of each touched line that the span covers.
    pub print_underscore_error: bool,
}

impl DisplaySyntaxDebugOptions {
    pub fn new() -> (r: Self)
        ensures
            r.location is None,
            !r.print_full,
            r.print_underscore_error,
    {
        Self { print_full: false, print_underscore_error: true, location: None }
    }
}

/// One line of a source text: its number from 1, its text, and the span of that text.
#[derive(Debug, Clone)]
pub struct Line {
    pub line: usize,
    pub str: String,
    pub span: Span,
}

pub struct LineView {
    pub number: int,
    pub text: Seq<char>,
    pub start: int,
    pub end: int,
}

impl View for Line {
    type V = LineView;

    open spec fn view(&self) -> LineView {
        LineView {
            number: self.line as int,
            text: self.str@,
            start: self.span.start as int,
            end: self.span.end as int,
        }
    }
}

pub open spec fn lines_view(lines: Seq<Line>) -> Seq<LineView> {
    lines.map_values(|l: Line| l@)
}

/// The lines of `s` from position `i` on, numbered from `number`; each ends before its
/// newline, and the text after the last newline is a line too.
pub open spec fn lines_from(s: Seq<char>, i: int, number: int) -> Seq<LineView>
    decreases s.len() - i,
{
    let e = line_end(s, i);
    let line = LineView { number, text: s.subrange(i, e), start: i, end: e };
    if 0 <= i <= e < s.len() {
        seq![line] + lines_from(s, e + 1, number + 1)
    } else {
        seq![line]
    }
}

pub open spec fn lines_of(s: Seq<char>) -> Seq<LineView> {
    lines_from(s, 0, 1)
}

/// Each line lies inside the text, and its number is at most one more than where it starts.
pub proof fn lemma_lines_bounds(s: Seq<char>, i: int, number: int)
    requires
        0 <= i <= s.len(),
        1 <= number <= i + 1,
    ensures
        forall|k: int|
            0 <= k < lines_from(s, i, number).len() ==> {
                let l = #[trigger] lines_from(s, i, number)[k];
                &&& i <= l.start <= l.end <= s.len()
                &&& 1 <= l.number <= l.start + 1
            },
    decreases s.len() - i,
{
    lemma_line_end_bounds(s, i);
    let e = line_end(s, i);
    if e < s.len() {
        lemma_lines_bounds(s, e + 1, number + 1);
        let rest = lines_from(s, e + 1, number + 1);
        let all = lines_from(s, i, number);
        assert forall|k: int| 0 < k < all.len() implies all[k] == rest[k - 1] by {}
    }
}

pub open spec fn starts_inline(l: LineView, sp: Span) -> bool {
    l.start <= sp.start && sp.start <= l.end
}

pub open spec fn ends_inline(l: LineView, sp: Span) -> bool {
    l.start <= sp.end && sp.end <= l.end
}

/// Whether the span starts in, ends in, or covers the line.
pub open spec fn touches(l: LineView, sp: Span) -> bool {
    starts_inline(l, sp) || ends_inline(l, sp) || (sp.start <= l.start && sp.end >= l.end)
}

/// The column, from 0, where the marks under the line start.
pub open spec fn mark_start(l: LineView, sp: Span) -> int {
    if starts_inline(l, sp) {
        sp.start - l.start
    } else {
        0
    }
}

/// The column, from 0, where the marks under the line end.
pub open spec fn mark_end(l: LineView, sp: Span) -> int {
    if ends_inline(l, sp) {
        sp.end - l.start
    } else {
        l.end - l.start
    }
}

pub open spec fn repeat(piece: Seq<char>, n: int) -> Seq<char>
    decreases n,
{
    if n <= 0 {
        Seq::empty()
    } else {
        repeat(piece, n - 1) + piece
    }
}

pub open spec fn digit_char(d: int) -> char {
    ((d + 48) as u8) as char
}

/// The decimal digits of `n`.
pub open spec fn decimal(n: int) -> Seq<char>
    decreases n,
{
    if n < 10 {
        seq![digit_char(n)]
    } else {
        decimal(n / 10).push(digit_char(n % 10))
    }
}

/// `d` right-aligned in four columns.
pub open spec fn pad4(d: Seq<char>) -> Seq<char> {
    repeat(" "@, 4 - d.len()) + d
}

/// What is printed for one line: nothing where it is left out, else the line with its
/// number, then the marks under it.
pub open spec fn line_block(l: LineView, sp: Span, full: bool, underline: bool) -> Seq<char> {
    let hit = touches(l, sp);
    if !full && !hit {
        Seq::empty()
    } else {
        (if hit {
            ">"@
        } else {
            " "@
        }) + " "@ + pad4(decimal(l.number)) + " | "@ + l.text + "\n"@ + (if underline && hit {
            repeat(" "@, 9 + mark_start(l, sp)) + repeat("▀"@, mark_end(l, sp) - mark_start(l, sp))
                + "\n"@
        } else {
            Seq::empty()
        })
    }
}

pub open spec fn blocks(lines: Seq<LineView>, sp: Span, full: bool, underline: bool) -> Seq<char>
    decreases lines.len(),
{
    if lines.len() == 0 {
        Seq::empty()
    } else {
        blocks(lines.drop_last(), sp, full, underline) + line_block(lines.last(), sp, full, underline)
    }
}

/// The first line that the span touches.
pub open spec fn first_hit(lines: Seq<LineView>, sp: Span) -> Option<LineView>
    decreases lines.len(),
{
    if lines.len() == 0 {
        None
    } else {
        match first_hit(lines.drop_last(), sp) {
            Some(l) => Some(l),
            None => if touches(lines.last(), sp) {
                Some(lines.last())
            } else {
                None
            },
        }
    }
}

/// The trailing `at location:line:column` line, when there is a location and a touched line.
pub open spec fn footer(hit: Option<LineView>, sp: Span, location: Option<Seq<char>>) -> Seq<char> {
    match (hit, location) {
        (Some(l), Some(loc)) => "    at "@ + loc + ":"@ + decimal(l.number) + ":"@ + decimal(
            mark_start(l, sp) + 1,
        ) + "\n"@,
        _ => Seq::empty(),
    }
}

/// The diagnostic for `message` about `sp` in `source`.
pub open spec fn render(
    message: Seq<char>,
    sp: Span,
    source: Seq<char>,
    location: Option<Seq<char>>,
    full: bool,
    underline: bool,
) -> Seq<char> {
    let lines = lines_of(source);
    message + "\n\n"@ + blocks(lines, sp, full, underline) + footer(first_hit(lines, sp), sp, location)
}

pub open spec fn opt_string_view(o: Option<String>) -> Option<Seq<char>> {
    match o {
        Some(s) => Some(s@),
        None => None,
    }
}

/// Relies on `String: FromIterator<char>`: the string of the characters, in order.
#[verifier::external_body]
fn string_from_chars(v: &Vec<char>) -> (r: String)
    ensures
        r@ == v@,
{
    v.iter().collect()
}

fn push_seq(out: &mut Vec<char>, piece: &Vec<char>)
    ensures
        final(out)@ == old(out)@ + piece@,
{
    let mut i: usize = 0;
    while i < piece.len()
        invariant
            i <= piece.len(),
            out@ == old(out)@ + piece@.take(i as int),
        decreases piece.len() - i,
    {
        out.push(piece[i]);
        i = i + 1;
        assert(out@ =~= old(out)@ + piece@.take(i as int));
    }
    assert(piece@.take(i as int) =~= piece@);
}

fn push_str(out: &mut Vec<char>, piece: &str)
    ensures
        final(out)@ == old(out)@ + piece@,
{
    push_seq(out, &chars_of(piece));
}

fn push_repeat(out: &mut Vec<char>, piece: &str, n: usize)
    ensures
        final(out)@ == old(out)@ + repeat(piece@, n as int),
{
    let mut i: usize = 0;
    while i < n
        invariant
            i <= n,
            out@ == old(out)@ + repeat(piece@, i as int),
        decreases n - i,
    {
        push_str(out, piece);
        i = i + 1;
        assert(out@ =~= old(out)@ + repeat(piece@, i as int));
    }
}

fn push_decimal(out: &mut Vec<char>, n: usize)
    ensures
        final(out)@ == old(out)@ + decimal(n as int),
    decreases n,
{
    if n >= 10 {
        push_decimal(out, n / 10);
    }
    let d = (n % 10) as u8;
    out.push((d + 48) as char);
    assert(out@ =~= old(out)@ + decimal(n as int));
}

/// A message about a span of source text, drawn under the lines it touches.
#[derive(Debug, Clone)]
pub struct DisplaySyntax {
    pub message: String,
    pub span: Span,
}

impl DisplaySyntax {
    pub fn new(message: String, span: Span) -> (r: Self)
        ensures
            r.message@ == message@,
            r.span == span,
    {
        Self { message, span }
    }

    /// The lines of `payload`, numbered from 1.
    pub fn helper_create_lines(payload: &str) -> (r: Vec<Line>)
        requires
            payload@.len() < usize::MAX,
        ensures
            lines_view(r@) == lines_of(payload@),
    {
        let ghost s = payload@;
        let chars = chars_of(payload);
        let mut lines: Vec<Line> = Vec::new();
        let mut start: usize = 0;
        let mut number: usize = 1;
        loop
            invariant
                chars@ == s,
                s == payload@,
                s.len() < usize::MAX,
                start <= s.len(),
                number <= start + 1,
                lines_of(s) == lines_view(lines@) + lines_from(s, start as int, number as int),
            decreases s.len() - start,
        {
            let mut end = start;
            while end < chars.len() && chars[end] != '\n'
                invariant
                    chars@ == s,
                    start <= end <= s.len(),
                    line_end(s, start as int) == line_end(s, end as int),
                decreases s.len() - end,
            {
                end = end + 1;
            }
            let line = Line {
                line: number,
                str: payload.substring_char(start, end).to_owned(),
                span: Span { start, end },
            };
            let ghost before = lines@;
            let ghost lv = line@;
            lines.push(line);
            assert(lines_view(lines@) =~= lines_view(before).push(lv));
            if end < chars.len() {
                assert(lines_from(s, start as int, number as int) == seq![lv] + lines_from(
                    s,
                    end + 1,
                    number + 1,
                ));
                assert(lines_view(before) + (seq![lv] + lines_from(s, end + 1, number + 1))
                    =~= lines_view(lines@) + lines_from(s, end + 1, number + 1));
                start = end + 1;
                number = number + 1;
            } else {
                assert(lines_from(s, start as int, number as int) == seq![lv]);
                assert(lines_view(before) + seq![lv] =~= lines_view(lines@));
                return lines;
            }
        }
    }

    pub fn debug_payload(&self, payload: &str) -> (r: String)
        requires
            payload@.len() < usize::MAX,
        ensures
            r@ == render(self.message@, self.span, payload@, None, false, true),
    {
        self.debug_payload_configurable(payload, &DisplaySyntaxDebugOptions::new())
    }

    /// The diagnostic: the message, a blank line, the lines that the span touches (every
    /// line, with `print_full`), each with its marks, and where the span starts.
    pub fn debug_payload_configurable(
        &self,
        payload: &str,
        options: &DisplaySyntaxDebugOptions,
    ) -> (r: String)
        requires
            payload@.len() < usize::MAX,
        ensures
            r@ == render(
                self.message@,
                self.span,
                payload@,
                opt_string_view(options.location),
                options.print_full,
                options.print_underscore_error,
            ),
    {
        let sp = self.span;
        let full = options.print_full;
        let underline = options.print_underscore_error;
        let mut out: Vec<char> = Vec::new();
        push_str(&mut out, self.message.as_str());
        push_str(&mut out, "\n\n");
        let lines = Self::helper_create_lines(payload);
        let ghost lv = lines_view(lines@);
        proof {
            lemma_lines_bounds(payload@, 0, 1);
        }
        let ghost head = out@;
        let mut hit: Option<(usize, usize)> = None;
        let mut k: usize = 0;
        while k < lines.len()
            invariant
                k <= lines.len(),
                lv == lines_view(lines@),
                lv == lines_of(payload@),
                payload@.len() < usize::MAX,
                forall|q: int|
                    0 <= q < lv.len() ==> {
                        let l = #[trigger] lv[q];
                        &&& 0 <= l.start <= l.end <= payload@.len()
                        &&& 1 <= l.number <= l.start + 1
                    },
                out@ == head + blocks(lv.take(k as int), sp, full, underline),
                match first_hit(lv.take(k as int), sp) {
                    Some(l) => hit == Some((l.number as usize, (mark_start(l, sp) + 1) as usize))
                        && l.number == l.number as usize && mark_start(l, sp) + 1 == (mark_start(
                        l,
                        sp,
                    ) + 1) as usize,
                    None => hit is None,
                },
            decreases lines.len() - k,
        {
            let line = &lines[k];
            let ghost l = line@;
            proof {
                assert(lv.take(k + 1).drop_last() =~= lv.take(k as int));
                assert(lv.take(k + 1).last() == l);
                assert(lv[k as int] == l);
            }
            let touched = push_line_block(&mut out, line, sp, full, underline);
            if hit.is_none() && touched {
                let col = if line.span.start <= sp.start && sp.start <= line.span.end {
                    sp.start - line.span.start
                } else {
                    0
                };
                hit = Some((line.line, col + 1));
            }
            k = k + 1;
        }
        assert(lv.take(k as int) =~= lv);
        match (hit, &options.location) {
            (Some((number, col)), Some(loc)) => {
                push_str(&mut out, "    at ");
                push_str(&mut out, loc.as_str());
                push_str(&mut out, ":");
                push_decimal(&mut out, number);
                push_str(&mut out, ":");
                push_decimal(&mut out, col);
                push_str(&mut out, "\n");
            },
            _ => {},
        }
        string_from_chars(&out)
    }
}

/// Prints the line itself, marked with `>` where the span touches it.
fn push_line_head(out: &mut Vec<char>, line: &Line, touched: bool)
    ensures
        final(out)@ == old(out)@ + (if touched {
            ">"@
        } else {
            " "@
        }) + " "@ + pad4(decimal(line@.number)) + " | "@ + line@.text + "\n"@,
{
    let ghost l = line@;
    let ghost m = if touched {
        ">"@
    } else {
        " "@
    };
    if touched {
        push_str(out, ">");
    } else {
        push_str(out, " ");
    }
    push_str(out, " ");
    let ghost a = out@;
    let mut digits: Vec<char> = Vec::new();
    push_decimal(&mut digits, line.line);
    assert(digits@ =~= decimal(l.number));
    if digits.len() < 4 {
        push_repeat(out, " ", 4 - digits.len());
    } else {
        push_repeat(out, " ", 0);
    }
    push_seq(out, &digits);
    assert(out@ =~= a + pad4(decimal(l.number)));
    push_str(out, " | ");
    push_str(out, line.str.as_str());
    push_str(out, "\n");
    assert(out@ =~= old(out)@ + m + " "@ + pad4(decimal(l.number)) + " | "@ + l.text + "\n"@);
}

/// Prints the marks under the part of the line that the span covers.
fn push_marks(out: &mut Vec<char>, line: &Line, sp: Span)
    requires
        line.span.start <= line.span.end,
    ensures
        final(out)@ == old(out)@ + repeat(" "@, 9 + mark_start(line@, sp)) + repeat(
            "▀"@,
            mark_end(line@, sp) - mark_start(line@, sp),
        ) + "\n"@,
{
    let ghost l = line@;
    let starts = line.span.start <= sp.start && sp.start <= line.span.end;
    let ends = line.span.start <= sp.end && sp.end <= line.span.end;
    let first = if starts {
        sp.start - line.span.start
    } else {
        0
    };
    let last = if ends {
        sp.end - line.span.start
    } else {
        line.span.end - line.span.start
    };
    push_repeat(out, " ", 9);
    let ghost a = out@;
    push_repeat(out, " ", first);
    proof {
        lemma_repeat_add(" "@, 9, first as int);
    }
    let ghost b = out@;
    if last > first {
        push_repeat(out, "▀", last - first);
    } else {
        push_repeat(out, "▀", 0);
    }
    push_str(out, "\n");
    assert(out@ =~= old(out)@ + repeat(" "@, 9 + mark_start(l, sp)) + repeat(
        "▀"@,
        mark_end(l, sp) - mark_start(l, sp),
    ) + "\n"@);
}

/// Prints one line as `line_block` says; tells whether the span touches it.
fn push_line_block(out: &mut Vec<char>, line: &Line, sp: Span, full: bool, underline: bool) -> (r:
    bool)
    requires
        line.span.start <= line.span.end,
    ensures
        final(out)@ == old(out)@ + line_block(line@, sp, full, underline),
        r == touches(line@, sp),
{
    let ghost l = line@;
    let starts = line.span.start <= sp.start && sp.start <= line.span.end;
    let ends = line.span.start <= sp.end && sp.end <= line.span.end;
    let covers = sp.start <= line.span.start && sp.end >= line.span.end;
    let touched = starts || ends || covers;
    if full || touched {
        push_line_head(out, line, touched);
        let ghost mid = out@;
        if underline && touched {
            push_marks(out, line, sp);
        } else {
            assert(out@ =~= mid + Seq::<char>::empty());
        }
        assert(out@ =~= old(out)@ + line_block(l, sp, full, underline));
    } else {
        assert(out@ =~= old(out)@ + line_block(l, sp, full, underline));
    }
    touched
}

proof fn lemma_repeat_add(piece: Seq<char>, a: int, b: int)
    requires
        0 <= a,
        0 <= b,
    ensures
        repeat(piece, a + b) =~= repeat(piece, a) + repeat(piece, b),
    decreases b,
{
    if b > 0 {
        lemma_repeat_add(piece, a, b - 1);
        assert(repeat(piece, a + b) == repeat(piece, a + b - 1) + piece);
    } else {
        assert(repeat(piece, b) =~= Seq::<char>::empty());
    }
}

} // verus!
