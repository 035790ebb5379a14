//! The log overlay: what it shows of a task's output, line by line and span
//! by span, with the style of each span.

use vstd::prelude::*;
use crate::text::{all_digits, decimal, decimal_chars, digits_value, is_digit, lemma_decimal, lines, lines_of, chars_of, string_of};
use ratatui::layout::{Constraint, Direction, Layout, Rect};

verus! {

/// How a span of the overlay is drawn.
#[derive(Debug, Clone, Copy, PartialEq, Eq, Structural)]
pub enum SpanStyle {
    /// Bold label text.
    Label,
    /// The highlighted task id.
    Active,
    /// A successful outcome.
    Success,
    /// A failure, and error output.
    Failure,
    /// Dimmed text: rules, placeholders, help.
    Dim,
    /// Plain text.
    Plain,
}

/// A piece of text of one style.
#[derive(Debug, Clone)]
pub struct OverlaySpan {
    pub text: String,
    pub style: SpanStyle,
}

impl View for OverlaySpan {
    type V = (Seq<char>, SpanStyle);

    open spec fn view(&self) -> (Seq<char>, SpanStyle) {
        (self.text@, self.style)
    }
}

/// What the overlay shows of a task run.
#[derive(Debug, Clone)]
pub struct TaskLogs {
    /// The task's id.
    pub task_id: String,
    /// The exit code, once the task has ended.
    pub exit_code: Option<i32>,
    /// Captured standard output, if it was captured.
    pub stdout: Option<String>,
    /// Captured standard error, if it was captured.
    pub stderr: Option<String>,
    /// The error the run ended with, if any.
    pub error: Option<String>,
}

/// A line of the overlay, as a specification value.
pub type LineView = Seq<(Seq<char>, SpanStyle)>;

/// The lines of the overlay, as specification values.
pub open spec fn lines_view(v: Seq<Vec<OverlaySpan>>) -> Seq<LineView> {
    v.map_values(|l: Vec<OverlaySpan>| l@.map_values(|s: OverlaySpan| s@))
}

/// The decimal text of an integer, with a minus sign when it is negative.
pub open spec fn int_text(n: int) -> Seq<char> {
    if n < 0 {
        seq!['-'] + decimal((-n) as nat)
    } else {
        decimal(n as nat)
    }
}

pub open spec fn stdout_rule() -> Seq<char> {
    "── stdout ──────────────────────────────────────────────────────────"@
}

pub open spec fn stderr_rule() -> Seq<char> {
    "── stderr ──────────────────────────────────────────────────────────"@
}

pub open spec fn error_rule() -> Seq<char> {
    "── error ───────────────────────────────────────────────────────────"@
}

pub open spec fn help_text() -> Seq<char> {
    "j/k: scroll │ PgUp/PgDn: page │ g: top │ q/Esc: close"@
}

/// An empty line.
pub open spec fn blank_line() -> LineView {
    seq![(Seq::<char>::empty(), SpanStyle::Plain)]
}

/// The lines of a captured output: a placeholder when nothing was captured
/// or the output is empty, else one line of style `style` per output line.
pub open spec fn output_lines(out: Option<Seq<char>>, style: SpanStyle) -> Seq<LineView> {
    match out {
        None => seq![seq![("(no output captured)"@, SpanStyle::Dim)]],
        Some(o) => if o.len() == 0 {
            seq![seq![("(empty)"@, SpanStyle::Dim)]]
        } else {
            text_lines(o, style)
        },
    }
}

/// One line of style `style` per line of `o`.
pub open spec fn text_lines(o: Seq<char>, style: SpanStyle) -> Seq<LineView> {
    lines(o).map_values(|l: Seq<char>| seq![(l, style)])
}

pub open spec fn opt_view(s: Option<String>) -> Option<Seq<char>> {
    match s {
        Some(x) => Some(x@),
        None => None,
    }
}

/// Everything the overlay shows of `t`: the task id, the exit code if
/// there is one (a success when zero), the standard output and standard
/// error sections, the error section if the run ended with one, and the
/// help line, with blank lines between the sections.
pub open spec fn overlay_content(t: TaskLogs) -> Seq<LineView> {
    seq![seq![("Task: "@, SpanStyle::Label), (t.task_id@, SpanStyle::Active)]]
        + match t.exit_code {
            Some(c) => seq![
                seq![
                    ("Exit Code: "@, SpanStyle::Label),
                    (int_text(c as int), if c == 0 { SpanStyle::Success } else { SpanStyle::Failure }),
                ],
            ],
            None => Seq::<LineView>::empty(),
        } + seq![blank_line(), seq![(stdout_rule(), SpanStyle::Dim)]]
        + output_lines(opt_view(t.stdout), SpanStyle::Plain)
        + seq![blank_line(), seq![(stderr_rule(), SpanStyle::Dim)]]
        + output_lines(opt_view(t.stderr), SpanStyle::Failure)
        + seq![blank_line()]
        + match t.error {
            Some(e) => seq![seq![(error_rule(), SpanStyle::Failure)]]
                + text_lines(e@, SpanStyle::Failure) + seq![blank_line()],
            None => Seq::<LineView>::empty(),
        } + seq![seq![(help_text(), SpanStyle::Dim)]]
}

/// The lines of a text, as the error section shows them: exactly one overlay
/// line per line of the text (`str::lines`), blank lines included, in order.
pub proof fn lemma_text_line_per_line(o: Seq<char>, style: SpanStyle)
    ensures
        text_lines(o, style).len() == lines(o).len(),
        forall|k: int|
            0 <= k < lines(o).len() ==> #[trigger] text_lines(o, style)[k] == seq![(lines(o)[k], style)],
{
}

/// A captured output that is not empty shows as exactly one overlay line
/// per line of the output (`str::lines`), blank lines included, in order,
/// each a single span of the section's style.
pub proof fn lemma_output_line_per_line(o: Seq<char>, style: SpanStyle)
    requires
        o.len() > 0,
    ensures
        output_lines(Some(o), style).len() == lines(o).len(),
        forall|k: int|
            0 <= k < lines(o).len() ==> #[trigger] output_lines(Some(o), style)[k] == seq![
                (lines(o)[k], style),
            ],
{
}

/// In the overlay, the standard output section starts after the task line,
/// the exit code line if there is one, a blank line and the section rule:
/// line `k` of a non-empty standard output is overlay line `h + k` as plain
/// text, and a blank line follows the last one.
pub proof fn lemma_stdout_lines_in_overlay(t: TaskLogs)
    requires
        t.stdout matches Some(o) && o@.len() > 0,
    ensures
        ({
            let o = t.stdout->Some_0@;
            let h: int = if t.exit_code is Some { 4 } else { 3 };
            let c = overlay_content(t);
            &&& forall|k: int|
                0 <= k < lines(o).len() ==> #[trigger] c[h + k] == seq![(lines(o)[k], SpanStyle::Plain)]
            &&& c[h + lines(o).len()] == blank_line()
        }),
{
    let o = t.stdout->Some_0@;
    let h: int = if t.exit_code is Some { 4 } else { 3 };
    let c = overlay_content(t);
    let head = seq![seq![("Task: "@, SpanStyle::Label), (t.task_id@, SpanStyle::Active)]]
        + match t.exit_code {
            Some(x) => seq![
                seq![
                    ("Exit Code: "@, SpanStyle::Label),
                    (int_text(x as int), if x == 0 { SpanStyle::Success } else { SpanStyle::Failure }),
                ],
            ],
            None => Seq::<LineView>::empty(),
        } + seq![blank_line(), seq![(stdout_rule(), SpanStyle::Dim)]];
    assert(head.len() == h);
    let out = output_lines(opt_view(t.stdout), SpanStyle::Plain);
    lemma_output_line_per_line(o, SpanStyle::Plain);
    assert(out.len() == lines(o).len());
    let rest = seq![blank_line(), seq![(stderr_rule(), SpanStyle::Dim)]]
        + output_lines(opt_view(t.stderr), SpanStyle::Failure)
        + seq![blank_line()]
        + match t.error {
            Some(e) => seq![seq![(error_rule(), SpanStyle::Failure)]]
                + text_lines(e@, SpanStyle::Failure) + seq![blank_line()],
            None => Seq::<LineView>::empty(),
        } + seq![seq![(help_text(), SpanStyle::Dim)]];
    assert(c =~= head + out + rest);
    assert forall|k: int| 0 <= k < lines(o).len() implies #[trigger] c[h + k] == seq![
        (lines(o)[k], SpanStyle::Plain),
    ] by {
        assert(c[h + k] == out[k]);
    }
    assert(c[h + lines(o).len()] == rest[0]);
}

/// The overlay opens with the task line, then, once the task has ended, the
/// exit code, shown as a success exactly when it is zero; its text reads
/// back as the code.
pub proof fn lemma_overlay_header(t: TaskLogs)
    ensures
        overlay_content(t)[0] == seq![("Task: "@, SpanStyle::Label), (t.task_id@, SpanStyle::Active)],
        t.exit_code matches Some(c) ==> {
            &&& overlay_content(t)[1][0] == ("Exit Code: "@, SpanStyle::Label)
            &&& overlay_content(t)[1][1].1 == (if c == 0 {
                SpanStyle::Success
            } else {
                SpanStyle::Failure
            })
            &&& all_digits_after_sign(overlay_content(t)[1][1].0)
            &&& signed_value(overlay_content(t)[1][1].0) == c as int
        },
        t.exit_code is None ==> overlay_content(t)[1] == blank_line(),
{
    if let Some(c) = t.exit_code {
        lemma_int_text(c as int);
    }
}

/// `s` is an optional minus sign followed by one or more ASCII digits.
pub open spec fn all_digits_after_sign(s: Seq<char>) -> bool {
    if s.len() > 0 && s[0] == '-' {
        s.len() > 1 && all_digits(s.drop_first())
    } else {
        s.len() > 0 && all_digits(s)
    }
}

/// The integer that an optional minus sign and decimal digits denote.
pub open spec fn signed_value(s: Seq<char>) -> int {
    if s.len() > 0 && s[0] == '-' {
        -(digits_value(s.drop_first()) as int)
    } else {
        digits_value(s) as int
    }
}

/// The text of an integer reads back as that integer.
pub proof fn lemma_int_text(n: int)
    ensures
        all_digits_after_sign(int_text(n)),
        signed_value(int_text(n)) == n,
{
    if n < 0 {
        let d = decimal((-n) as nat);
        lemma_decimal((-n) as nat);
        assert((seq!['-'] + d).drop_first() =~= d);
        assert((seq!['-'] + d)[0] == '-');
    } else {
        lemma_decimal(n as nat);
        let d = decimal(n as nat);
        assert(is_digit(d[0]));
    }
}

/// The decimal text of `n`.
pub fn int_string(n: i32) -> (r: String)
    ensures
        r@ == int_text(n as int),
{
    if n < 0 {
        let m: i64 = -(n as i64);
        let digits = decimal_chars(m as u64);
        let mut out: Vec<char> = Vec::new();
        out.push('-');
        let mut d = digits;
        out.append(&mut d);
        assert(out@ =~= int_text(n as int));
        string_of(out.as_slice())
    } else {
        let digits = decimal_chars(n as u64);
        string_of(digits.as_slice())
    }
}

fn span(text: String, style: SpanStyle) -> (r: OverlaySpan)
    ensures
        r@ == (text@, style),
{
    OverlaySpan { text, style }
}

fn one_span(text: String, style: SpanStyle) -> (r: Vec<OverlaySpan>)
    ensures
        r@.map_values(|s: OverlaySpan| s@) == seq![(text@, style)],
{
    let mut v: Vec<OverlaySpan> = Vec::new();
    v.push(span(text, style));
    assert(v@.map_values(|s: OverlaySpan| s@) =~= seq![(text@, style)]);
    v
}

fn two_spans(a: String, sa: SpanStyle, b: String, sb: SpanStyle) -> (r: Vec<OverlaySpan>)
    ensures
        r@.map_values(|s: OverlaySpan| s@) == seq![(a@, sa), (b@, sb)],
{
    let mut v: Vec<OverlaySpan> = Vec::new();
    v.push(span(a, sa));
    v.push(span(b, sb));
    assert(v@.map_values(|s: OverlaySpan| s@) =~= seq![(a@, sa), (b@, sb)]);
    v
}

fn push_line(out: &mut Vec<Vec<OverlaySpan>>, line: Vec<OverlaySpan>)
    ensures
        lines_view(final(out)@) == lines_view(old(out)@).push(
            line@.map_values(|s: OverlaySpan| s@),
        ),
{
    out.push(line);
    assert(lines_view(out@) =~= lines_view(old(out)@).push(line@.map_values(|s: OverlaySpan| s@)));
}

fn push_blank(out: &mut Vec<Vec<OverlaySpan>>)
    ensures
        lines_view(final(out)@) == lines_view(old(out)@).push(blank_line()),
{
    let line = one_span(String::new(), SpanStyle::Plain);
    push_line(out, line);
}

fn push_text_lines(out: &mut Vec<Vec<OverlaySpan>>, text: &String, style: SpanStyle)
    ensures
        lines_view(final(out)@) == lines_view(old(out)@) + text_lines(text@, style),
{
    let chars = chars_of(text.as_str());
    let ls = lines_of(chars.as_slice());
    let ghost start = lines_view(out@);
    let ghost all = text_lines(text@, style);
    let mut i: usize = 0;
    while i < ls.len()
        invariant
            chars@ == text@,
            ls@.len() == lines(text@).len(),
            forall|k: int| 0 <= k < ls@.len() ==> (#[trigger] ls@[k])@ == lines(text@)[k],
            all == text_lines(text@, style),
            i <= ls@.len(),
            lines_view(out@) == start + all.subrange(0, i as int),
        decreases ls@.len() - i,
    {
        let line = one_span(string_of(ls[i].as_slice()), style);
        push_line(out, line);
        assert(start + all.subrange(0, i + 1) =~= (start + all.subrange(0, i as int)).push(
            seq![(lines(text@)[i as int], style)],
        ));
        i = i + 1;
    }
    assert(all.subrange(0, i as int) =~= all);
}

fn push_output(out: &mut Vec<Vec<OverlaySpan>>, text: &Option<String>, style: SpanStyle)
    ensures
        lines_view(final(out)@) == lines_view(old(out)@) + output_lines(opt_view(*text), style),
{
    match text {
        None => {
            push_line(out, one_span(String::from_str("(no output captured)"), SpanStyle::Dim));
            assert(lines_view(old(out)@).push(seq![("(no output captured)"@, SpanStyle::Dim)])
                =~= lines_view(old(out)@) + output_lines(opt_view(*text), style));
        },
        Some(t) => {
            if t.as_str().is_empty() {
                push_line(out, one_span(String::from_str("(empty)"), SpanStyle::Dim));
                assert(lines_view(old(out)@).push(seq![("(empty)"@, SpanStyle::Dim)])
                    =~= lines_view(old(out)@) + output_lines(opt_view(*text), style));
            } else {
                push_text_lines(out, t, style);
            }
        },
    }
}

/// The lines of the log overlay for a task, span by span.
pub fn overlay_lines(task: &TaskLogs) -> (r: Vec<Vec<OverlaySpan>>)
    ensures
        lines_view(r@) == overlay_content(*task),
{
    let mut out: Vec<Vec<OverlaySpan>> = Vec::new();
    push_line(
        &mut out,
        two_spans(String::from_str("Task: "), SpanStyle::Label, task.task_id.clone(), SpanStyle::Active),
    );
    let ghost after_header = lines_view(out@);
    match task.exit_code {
        Some(code) => {
            let style = if code == 0 { SpanStyle::Success } else { SpanStyle::Failure };
            push_line(
                &mut out,
                two_spans(String::from_str("Exit Code: "), SpanStyle::Label, int_string(code), style),
            );
        },
        None => {},
    }
    let ghost after_exit = lines_view(out@);
    push_blank(&mut out);
    push_line(
        &mut out,
        one_span(
            String::from_str("── stdout ──────────────────────────────────────────────────────────"),
            SpanStyle::Dim,
        ),
    );
    push_output(&mut out, &task.stdout, SpanStyle::Plain);
    let ghost after_stdout = lines_view(out@);
    push_blank(&mut out);
    push_line(
        &mut out,
        one_span(
            String::from_str("── stderr ──────────────────────────────────────────────────────────"),
            SpanStyle::Dim,
        ),
    );
    push_output(&mut out, &task.stderr, SpanStyle::Failure);
    push_blank(&mut out);
    let ghost after_stderr = lines_view(out@);
    match &task.error {
        Some(e) => {
            push_line(
                &mut out,
                one_span(
                    String::from_str(
                        "── error ───────────────────────────────────────────────────────────",
                    ),
                    SpanStyle::Failure,
                ),
            );
            push_text_lines(&mut out, e, SpanStyle::Failure);
            push_blank(&mut out);
        },
        None => {},
    }
    let ghost after_error = lines_view(out@);
    push_line(
        &mut out,
        one_span(
            String::from_str("j/k: scroll │ PgUp/PgDn: page │ g: top │ q/Esc: close"),
            SpanStyle::Dim,
        ),
    );
    assert(lines_view(out@) =~= overlay_content(*task));
    out
}

/// The overlay's title: `" Task Logs: "`, the task id, and a space.
pub fn overlay_title(task_id: &str) -> (r: String)
    ensures
        r@ == " Task Logs: "@ + task_id@ + " "@,
{
    let mut t = String::from_str(" Task Logs: ");
    t.append(task_id);
    t.append(" ");
    t
}

/// A rectangle of the terminal: its top-left corner and its size, in cells.
#[derive(Debug, Clone, Copy, PartialEq, Eq, Structural)]
pub struct Area {
    pub x: u16,
    pub y: u16,
    pub width: u16,
    pub height: u16,
}

/// `r` lies within `area`.
pub open spec fn inside(r: Area, area: Area) -> bool {
    &&& r.x >= area.x
    &&& r.y >= area.y
    &&& r.x + r.width <= area.x + area.width
    &&& r.y + r.height <= area.y + area.height
}

/// The middle part of `area` when ratatui's `Layout` splits it, top to
/// bottom when `vertical` and else left to right, into three parts of
/// `margin`, `middle` and `margin` percent.
pub uninterp spec fn middle_of_split(area: Area, vertical: bool, margin: u16, middle: u16) -> Area;

/// `ratatui::layout::Layout::split` of `area` into three parts of `margin`,
/// `middle` and `margin` percent, in the direction `vertical` selects; the
/// middle part. The parts depend on the arguments alone; where exactly they
/// fall is the constraint solver's to say, and is left to the name above.
/// What the layout code guarantees is stated: its required constraints keep
/// every part within the area along the split (the end clamped to `u16`),
/// and across the split the part keeps the area's position and extent.
#[verifier::external_body]
fn split_middle(area: Area, vertical: bool, margin: u16, middle: u16) -> (r: Area)
    ensures
        r == middle_of_split(area, vertical, margin, middle),
        inside(r, area),
        vertical ==> r.x == area.x && r.width == area.width,
        !vertical ==> r.y == area.y && r.height == area.height,
{
    let direction = if vertical { Direction::Vertical } else { Direction::Horizontal };
    let rect = Rect { x: area.x, y: area.y, width: area.width, height: area.height };
    let parts = Layout::default().direction(direction).constraints([
        Constraint::Percentage(margin),
        Constraint::Percentage(middle),
        Constraint::Percentage(margin),
    ]).split(rect);
    Area { x: parts[1].x, y: parts[1].y, width: parts[1].width, height: parts[1].height }
}

/// The rectangle centred in `area` that takes `percent_x` percent of its
/// width and `percent_y` percent of its height: the middle row of a split
/// with equal margins, then the middle column of that row.
pub fn centered_rect(percent_x: u16, percent_y: u16, area: Area) -> (r: Area)
    requires
        percent_x <= 100,
        percent_y <= 100,
    ensures
        r == middle_of_split(
            middle_of_split(area, true, ((100 - percent_y) / 2) as u16, percent_y),
            false,
            ((100 - percent_x) / 2) as u16,
            percent_x,
        ),
        inside(r, area),
{
    let row = split_middle(area, true, (100 - percent_y) / 2, percent_y);
    split_middle(row, false, (100 - percent_x) / 2, percent_x)
}

} // verus!
