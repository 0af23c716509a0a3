//! Streaming Markdown rendering for the terminal: text arrives in chunks and
//! is turned into styled output as soon as each word is complete, wrapping
//! words at the margin, framing code blocks, drawing tables, and styling
//! headers, lists, quotes and inline emphasis.
use vstd::prelude::*;

pub use crate::render::{format_cell_text, get_visible_len};

use crate::render::{
    Piece, Span, Style, Tone, cell_display, emit, emit_newline, emit_str, fit_cell, make_style,
    newline, piece, pieces, plain, push_repeat, repeat, style_of, visible_chars, visible_len,
};
use crate::text::{
    contains_char, copy_chars, is_space, push_chars, slice_chars, starts_with, starts_with_str,
    string_of, trim, trim_chars,
};

verus! {

/// The kind of the line being rendered.
#[derive(Debug, Clone, Copy, PartialEq, Eq, Structural)]
pub enum LineType {
    Normal,
    Header(u8),
    BulletList,
    NumberedList,
    Blockquote,
}

/// The state of a [`MarkdownStreamProcessor`], for contracts.
pub struct MdView {
    /// The width of the output, in columns.
    pub max_cols: nat,
    /// The column of the next character.
    pub col: nat,
    pub in_code_block: bool,
    pub bold: bool,
    pub italic: bool,
    pub inline_code: bool,
    pub strikethrough: bool,
    /// Whether nothing of the current line has been shown yet.
    pub line_start: bool,
    pub line_type: LineType,
    /// The non-blank characters of the current line received so far.
    pub line: Seq<char>,
    /// The word being received, not yet shown.
    pub pending: Seq<char>,
    pub in_table: bool,
    /// The widths of the columns of the table being drawn.
    pub widths: Seq<usize>,
    /// Whether the last output was reasoning.
    pub reasoning: bool,
}

/// Renders streamed Markdown into styled output.
pub struct MarkdownStreamProcessor {
    max_cols: usize,
    col_count: usize,
    in_code_block: bool,
    in_bold: bool,
    in_italic: bool,
    in_inline_code: bool,
    in_strikethrough: bool,
    is_line_start: bool,
    current_line_type: LineType,
    line_buffer: Vec<char>,
    pending_word: Vec<char>,
    in_table: bool,
    table_col_widths: Vec<usize>,
    is_reasoning: bool,
}

impl View for MarkdownStreamProcessor {
    type V = MdView;

    closed spec fn view(&self) -> MdView {
        MdView {
            max_cols: self.max_cols as nat,
            col: self.col_count as nat,
            in_code_block: self.in_code_block,
            bold: self.in_bold,
            italic: self.in_italic,
            inline_code: self.in_inline_code,
            strikethrough: self.in_strikethrough,
            line_start: self.is_line_start,
            line_type: self.current_line_type,
            line: self.line_buffer@,
            pending: self.pending_word@,
            in_table: self.in_table,
            widths: self.table_col_widths@,
            reasoning: self.is_reasoning,
        }
    }
}

// ---------------------------------------------------------------------------
// Styles
// ---------------------------------------------------------------------------
pub open spec fn cyan() -> Style {
    style_of(Tone::Cyan, false, false, false, false)
}

pub open spec fn cyan_bold() -> Style {
    style_of(Tone::Cyan, true, false, false, false)
}

pub open spec fn cyan_dim() -> Style {
    style_of(Tone::Cyan, false, true, false, false)
}

pub open spec fn cyan_dim_italic() -> Style {
    style_of(Tone::Cyan, false, true, true, false)
}

pub open spec fn yellow_bold() -> Style {
    style_of(Tone::Yellow, true, false, false, false)
}

pub open spec fn dim() -> Style {
    style_of(Tone::Plain, false, true, false, false)
}

pub open spec fn dim_italic() -> Style {
    style_of(Tone::Plain, false, true, true, false)
}

// ---------------------------------------------------------------------------
// Specification of the renderer
// ---------------------------------------------------------------------------
/// `a + b`, or `usize::MAX` where the sum does not fit.
pub open spec fn bump(a: nat, b: nat) -> nat {
    if a + b > usize::MAX {
        usize::MAX as nat
    } else {
        a + b
    }
}

/// `a - b`, or zero where `b > a`.
pub open spec fn sat_sub(a: nat, b: nat) -> nat {
    if a > b {
        (a - b) as nat
    } else {
        0
    }
}

/// The larger of two numbers.
pub open spec fn max_nat(a: nat, b: nat) -> nat {
    if a >= b {
        a
    } else {
        b
    }
}

/// The smaller of two numbers.
pub open spec fn min_nat(a: nat, b: nat) -> nat {
    if a <= b {
        a
    } else {
        b
    }
}

/// The style of inline text, from the inline code flag, the line kind and
/// the emphasis flags.
pub open spec fn segment_style(st: MdView) -> Style {
    if st.inline_code {
        yellow_bold()
    } else {
        match st.line_type {
            LineType::Header(1) => style_of(Tone::Magenta, true, false, false, false),
            LineType::Header(2) => cyan_bold(),
            LineType::Header(3) => yellow_bold(),
            LineType::Header(4) => style_of(Tone::Blue, true, false, false, false),
            LineType::Blockquote => cyan_dim_italic(),
            _ => style_of(Tone::Plain, st.bold, false, st.italic, st.strikethrough),
        }
    }
}

/// Shows a run of inline text in the current style.
pub open spec fn flush_segment_spec(st: MdView, seg: Seq<char>) -> (MdView, Seq<Piece>) {
    if seg.len() == 0 {
        (st, Seq::empty())
    } else {
        (MdView { col: bump(st.col, seg.len()), ..st }, piece(seg, segment_style(st)))
    }
}

/// Shows inline Markdown from position `i` of `w`, with `seg` the text
/// gathered and not yet shown. A backtick toggles inline code; outside inline
/// code, `**`/`__` toggle bold, a single `*`/`_` toggles italic, `~~` toggles
/// strike-through, and a single `~` is shown while the character after it is
/// dropped.
pub open spec fn inline_from(st: MdView, w: Seq<char>, i: int, seg: Seq<char>) -> (
    MdView,
    Seq<Piece>,
)
    decreases w.len() + 1 - i,
{
    if i < 0 || i >= w.len() {
        flush_segment_spec(st, seg)
    } else {
        let ch = w[i];
        if ch == '`' {
            let (s1, o1) = flush_segment_spec(st, seg);
            let (s2, o2) = inline_from(
                MdView { inline_code: !s1.inline_code, ..s1 },
                w,
                i + 1,
                Seq::empty(),
            );
            (s2, o1 + o2)
        } else if st.inline_code {
            inline_from(st, w, i + 1, seg.push(ch))
        } else if ch == '*' || ch == '_' {
            let (s1, o1) = flush_segment_spec(st, seg);
            if i + 1 < w.len() && w[i + 1] == ch {
                let (s2, o2) = inline_from(MdView { bold: !s1.bold, ..s1 }, w, i + 2, Seq::empty());
                (s2, o1 + o2)
            } else {
                let (s2, o2) = inline_from(
                    MdView { italic: !s1.italic, ..s1 },
                    w,
                    i + 1,
                    Seq::empty(),
                );
                (s2, o1 + o2)
            }
        } else if ch == '~' {
            if i + 1 < w.len() && w[i + 1] == '~' {
                let (s1, o1) = flush_segment_spec(st, seg);
                let (s2, o2) = inline_from(
                    MdView { strikethrough: !s1.strikethrough, ..s1 },
                    w,
                    i + 2,
                    Seq::empty(),
                );
                (s2, o1 + o2)
            } else {
                inline_from(st, w, i + 2, seg.push('~'))
            }
        } else {
            inline_from(st, w, i + 1, seg.push(ch))
        }
    }
}

/// Whether a trimmed line starts with `|`.
pub open spec fn starts_bar(t: Seq<char>) -> bool {
    t.len() > 0 && t[0] == '|'
}

/// Whether the current line is a table row.
pub open spec fn is_table_line_spec(st: MdView) -> bool {
    let t = trim(st.line);
    !st.in_code_block && (starts_bar(t) || (st.in_table && t.contains('|')))
}

/// Whether a trimmed line is a horizontal rule.
pub open spec fn is_rule(t: Seq<char>) -> bool {
    t == "---"@ || t == "***"@ || t == "___"@
}

/// Whether a trimmed line opens or closes a code block.
pub open spec fn is_fence(t: Seq<char>) -> bool {
    starts_with(t, "```"@) || starts_with(t, "~~~"@)
}

/// Whether a word opens a numbered list item: digits and dots, ending in a
/// dot, at most four characters.
pub open spec fn is_number_mark(w: Seq<char>) -> bool {
    &&& w.len() > 0
    &&& w.last() == '.'
    &&& w.len() <= 4
    &&& forall|k: int| 0 <= k < w.len() ==> (('0' <= #[trigger] w[k] && w[k] <= '9') || w[k] == '.')
}

/// The header level that a word opens, or zero.
pub open spec fn header_level(w: Seq<char>) -> u8 {
    if w == "#"@ {
        1
    } else if w == "##"@ {
        2
    } else if w == "###"@ {
        3
    } else if w == "####"@ || w == "#####"@ || w == "######"@ {
        4
    } else {
        0
    }
}

/// Whether a word opens a bullet list item.
pub open spec fn is_bullet_mark(w: Seq<char>) -> bool {
    w == "-"@ || w == "*"@ || w == "+"@
}

/// The state at the start of a new line.
pub open spec fn reset_line(st: MdView) -> MdView {
    MdView {
        line: Seq::empty(),
        pending: Seq::empty(),
        line_start: true,
        col: 0,
        line_type: LineType::Normal,
        ..st
    }
}

/// Shows the pending word. Nothing is shown on a table line (the word is then
/// kept). At the start of a line outside code, structural markers are
/// consumed: `#`..`######` set the header level and are hidden, `-`/`*`/`+`
/// become a bullet, `>` a quote bar, and a number mark is shown highlighted.
/// Otherwise the word is preceded by a space, or wrapped to a new line when
/// it would pass the margin (continuation lines of code, quotes and lists are
/// indented), and shown: verbatim in code, else as inline Markdown.
pub open spec fn flush_word_spec(st: MdView) -> (MdView, Seq<Piece>) {
    if st.pending.len() == 0 || is_table_line_spec(st) {
        (st, Seq::empty())
    } else {
        let word = st.pending;
        let s0 = MdView { pending: Seq::empty(), ..st };
        if s0.line_start && !s0.in_code_block && header_level(word) > 0 {
            (
                MdView { line_type: LineType::Header(header_level(word)), line_start: false, ..s0 },
                Seq::empty(),
            )
        } else if s0.line_start && !s0.in_code_block && is_bullet_mark(word) {
            (
                MdView { line_type: LineType::BulletList, col: 2, line_start: false, ..s0 },
                piece("• "@, cyan_bold()),
            )
        } else if s0.line_start && !s0.in_code_block && word == ">"@ {
            (
                MdView { line_type: LineType::Blockquote, col: 2, line_start: false, ..s0 },
                piece("│ "@, cyan_dim()),
            )
        } else if s0.line_start && !s0.in_code_block && is_number_mark(word) {
            (
                MdView {
                    line_type: LineType::NumberedList,
                    col: word.len() + 1,
                    line_start: false,
                    ..s0
                },
                piece(word, yellow_bold()) + piece(" "@, plain()),
            )
        } else {
            let (s1, o1) = word_start_spec(s0);
            let (s2, o2) = word_gap_spec(s1, visible_len(word, s1.in_code_block));
            let (s3, o3) = word_body_spec(s2, word);
            (s3, o1 + o2 + o3)
        }
    }
}

/// The first word of a line: in code it is preceded by a code bar.
pub open spec fn word_start_spec(s0: MdView) -> (MdView, Seq<Piece>) {
    if s0.line_start {
        if s0.in_code_block {
            (MdView { col: 2, line_start: false, ..s0 }, piece("│ "@, cyan()))
        } else {
            (MdView { line_start: false, ..s0 }, Seq::empty())
        }
    } else {
        (s0, Seq::empty())
    }
}

/// What comes before a word of `vis` visible columns: a space, or a line
/// break (indented in code, quotes and lists) where it would pass the margin.
pub open spec fn word_gap_spec(s1: MdView, vis: nat) -> (MdView, Seq<Piece>) {
    if s1.col > 0 && s1.col + 1 + vis > s1.max_cols {
        if s1.in_code_block {
            (MdView { col: 2, ..s1 }, newline() + piece("│ "@, cyan()))
        } else if s1.line_type == LineType::Blockquote {
            (MdView { col: 2, ..s1 }, newline() + piece("│ "@, cyan_dim()))
        } else if s1.line_type == LineType::BulletList || s1.line_type == LineType::NumberedList {
            (MdView { col: 2, ..s1 }, newline() + piece("  "@, plain()))
        } else {
            (MdView { col: 0, ..s1 }, newline())
        }
    } else if s1.col > 0 {
        (MdView { col: bump(s1.col, 1), ..s1 }, piece(" "@, plain()))
    } else {
        (s1, Seq::empty())
    }
}

/// The word itself: verbatim in code, else as inline Markdown.
pub open spec fn word_body_spec(s2: MdView, word: Seq<char>) -> (MdView, Seq<Piece>) {
    if s2.in_code_block {
        (MdView { col: bump(s2.col, word.len()), ..s2 }, piece(word, cyan()))
    } else {
        inline_from(s2, word, 0, Seq::empty())
    }
}

/// A space: one column of space after shown text where it fits, nothing at a
/// line start or on a table line.
pub open spec fn space_spec(st: MdView) -> (MdView, Seq<Piece>) {
    if st.line_start || is_table_line_spec(st) {
        (st, Seq::empty())
    } else if st.col > 0 && st.col + 1 <= st.max_cols {
        (MdView { col: st.col + 1, ..st }, piece(" "@, plain()))
    } else {
        (st, Seq::empty())
    }
}

/// The separator after the `i`-th of `n` cells of a border.
pub open spec fn border_sep(i: int, n: int, mid: char, end: char) -> char {
    if i + 1 < n {
        mid
    } else {
        end
    }
}

/// The first `k` cells of a border over columns of widths `ws`.
pub open spec fn border_cells(ws: Seq<nat>, k: nat, mid: char, end: char) -> Seq<char>
    decreases k,
{
    if k == 0 || k > ws.len() {
        Seq::empty()
    } else {
        border_cells(ws, (k - 1) as nat, mid, end) + repeat('─', ws[k - 1] + 2).push(
            border_sep(k - 1, ws.len() as int, mid, end),
        )
    }
}

/// A table border: the left corner, then for each column a run of `─` two
/// wider than the column and a junction, the last one a right corner.
pub open spec fn border(left: char, mid: char, end: char, ws: Seq<nat>) -> Seq<char> {
    seq![left] + border_cells(ws, ws.len(), mid, end)
}

/// Widths as numbers.
pub open spec fn nat_widths(ws: Seq<usize>) -> Seq<nat> {
    ws.map_values(|w: usize| w as nat)
}

/// The bottom border of the table being drawn, if it has columns.
pub open spec fn bottom_border_out(ws: Seq<usize>) -> Seq<Piece> {
    if ws.len() == 0 {
        Seq::empty()
    } else {
        piece(border('└', '┴', '┘', nat_widths(ws)), cyan_dim()) + newline()
    }
}

/// The parts of `s` between `|` separators, as `str::split('|')` gives them.
pub open spec fn split_bar(s: Seq<char>) -> Seq<Seq<char>>
    decreases s.len(),
{
    if s.len() == 0 {
        seq![Seq::empty()]
    } else {
        let p = split_bar(s.drop_last());
        if s.last() == '|' {
            p.push(Seq::empty())
        } else if p.len() > 0 {
            p.update(p.len() - 1, p.last().push(s.last()))
        } else {
            p
        }
    }
}

/// The trimmed cells of a table row: the parts between bars, without a blank
/// first and a blank last part.
pub open spec fn row_cells(t: Seq<char>) -> Seq<Seq<char>> {
    let parts = split_bar(t);
    let start: int = if parts.len() > 0 && trim(parts[0]).len() == 0 {
        1
    } else {
        0
    };
    let end: int = if parts.len() > start && trim(parts.last()).len() == 0 {
        parts.len() - 1
    } else {
        parts.len() as int
    };
    if start < end {
        parts.subrange(start, end).map_values(|p: Seq<char>| trim(p))
    } else {
        Seq::empty()
    }
}

/// Whether a cell belongs to a separator row: blank, or only `-`, `:` and spaces.
pub open spec fn is_separator_cell(c: Seq<char>) -> bool {
    forall|k: int| 0 <= k < c.len() ==> (#[trigger] c[k] == '-' || c[k] == ':' || c[k] == ' ')
}

/// The widest a column may be for a row of `n` cells.
pub open spec fn max_col_width(max_cols: nat, n: nat) -> nat {
    if n == 0 {
        4
    } else {
        max_nat(sat_sub(max_cols, 3 * n + 1) / n, 4)
    }
}

/// The column widths after the first `k` cells of a row are accounted for:
/// each width grows to the cell's visible width, capped at `mcw`, and is at
/// least four.
pub open spec fn grow_widths(ws: Seq<usize>, cells: Seq<Seq<char>>, k: nat, mcw: nat) -> Seq<
    usize,
>
    decreases k,
{
    if k == 0 || k > cells.len() {
        ws
    } else {
        let w = grow_widths(ws, cells, (k - 1) as nat, mcw);
        let idx = k - 1;
        let vis = min_nat(visible_len(cells[idx], false), mcw);
        if idx >= w.len() {
            w.push(max_nat(vis, 4) as usize)
        } else {
            w.update(idx, max_nat(min_nat(max_nat(w[idx] as nat, vis), mcw), 4) as usize)
        }
    }
}

/// The width at which cell `i` is shown.
pub open spec fn cell_target(ws: Seq<usize>, i: int, mcw: nat) -> nat {
    min_nat(
        if 0 <= i < ws.len() {
            ws[i] as nat
        } else {
            4
        },
        mcw,
    )
}

/// Shows cells `i..` of a row, each padded to its column and closed by a bar.
pub open spec fn row_from(st: MdView, cells: Seq<Seq<char>>, mcw: nat, i: int) -> (
    MdView,
    Seq<Piece>,
)
    decreases cells.len() - i,
{
    if i < 0 || i >= cells.len() {
        (st, Seq::empty())
    } else {
        let target = cell_target(st.widths, i, mcw);
        let (text, vis) = cell_display(cells[i], target);
        let (s1, o1) = inline_from(st, text, 0, Seq::empty());
        let (s2, o2) = row_from(s1, cells, mcw, i + 1);
        (
            s2,
            piece(" "@, plain()) + o1 + piece(repeat(' ', sat_sub(target, vis) + 1), plain())
                + piece("│"@, cyan()) + o2,
        )
    }
}

/// Draws a table row. A separator row draws a `├┼┤` rule over the known
/// column widths (or, with none yet, one column per cell at the widest
/// width). Another row widens the columns as needed, opens the table with a
/// `┌┬┐` border if it is not open yet, then shows its cells between bars.
pub open spec fn table_row_spec(st: MdView, t: Seq<char>) -> (MdView, Seq<Piece>) {
    let cells = row_cells(t);
    if split_bar(t).len() < 2 || cells.len() == 0 {
        (st, Seq::empty())
    } else {
        let n = cells.len();
        let mcw = max_col_width(st.max_cols, n);
        if forall|k: int| 0 <= k < n ==> is_separator_cell(#[trigger] cells[k]) {
            let ws = if st.widths.len() == 0 {
                Seq::new(n, |_i: int| mcw)
            } else {
                nat_widths(st.widths)
            };
            (
                MdView { in_table: true, ..st },
                piece(border('├', '┼', '┤', ws), cyan_dim()) + newline(),
            )
        } else {
            let w2 = grow_widths(st.widths, cells, n, mcw);
            let s1 = MdView { widths: w2, ..st };
            let (s2, o2) = if !s1.in_table {
                (
                    MdView { in_table: true, ..s1 },
                    piece(border('┌', '┬', '┐', nat_widths(w2)), cyan_dim()) + newline(),
                )
            } else {
                (s1, Seq::empty())
            };
            let (s3, o3) = row_from(s2, cells, mcw, 0);
            (s3, o2 + piece("│"@, cyan()) + o3 + newline())
        }
    }
}

/// `s` without leading `c`s.
pub open spec fn strip_leading(s: Seq<char>, c: char) -> Seq<char>
    decreases s.len(),
{
    if s.len() > 0 && s[0] == c {
        strip_leading(s.skip(1), c)
    } else {
        s
    }
}

/// The language label of a fence line, or `"code"`.
pub open spec fn fence_label(t: Seq<char>) -> Seq<char> {
    let l = trim(strip_leading(strip_leading(t, '`'), '~'));
    if l.len() == 0 {
        "code"@
    } else {
        l
    }
}

/// The number of bytes that UTF-8 takes for a character.
pub open spec fn utf8_width(c: char) -> nat {
    let n = c as u32;
    if n < 0x80 {
        1
    } else if n < 0x800 {
        2
    } else if n < 0x10000 {
        3
    } else {
        4
    }
}

/// The number of bytes that UTF-8 takes for a character sequence.
pub open spec fn utf8_len(s: Seq<char>) -> nat
    decreases s.len(),
{
    if s.len() == 0 {
        0
    } else {
        utf8_len(s.drop_last()) + utf8_width(s.last())
    }
}

/// The heading of a code block: `╭── [ label ] ` and a rule filling the width
/// (at least four columns; the label's length counted in UTF-8 bytes).
pub open spec fn fence_open_line(max_cols: nat, t: Seq<char>) -> Seq<char> {
    let label = fence_label(t);
    "╭── [ "@ + label + " ] "@ + repeat('─', max_nat(sat_sub(max_cols, utf8_len(label) + 7), 4))
}

/// The end of a code block.
pub open spec fn fence_close_line(max_cols: nat) -> Seq<char> {
    seq!['╰'] + repeat('─', sat_sub(max_cols, 1))
}

/// Ends a line: closes an open table the line does not continue, then draws
/// a table row, opens or closes a code block, draws a horizontal rule, or
/// just breaks the line; the next line starts afresh.
pub open spec fn line_break_spec(st: MdView) -> (MdView, Seq<Piece>) {
    let t = trim(st.line);
    let (s1, o1) = if st.in_table && !starts_bar(t) {
        (MdView { in_table: false, widths: Seq::empty(), ..st }, bottom_border_out(st.widths))
    } else {
        (st, Seq::empty())
    };
    if !s1.in_code_block && (starts_bar(t) || (s1.in_table && t.contains('|'))) {
        let (s2, o2) = table_row_spec(s1, t);
        (reset_line(s2), o1 + o2)
    } else if is_fence(t) {
        if !s1.in_code_block {
            (
                reset_line(MdView { in_code_block: true, ..s1 }),
                o1 + piece(fence_open_line(s1.max_cols, t), cyan_bold()) + newline(),
            )
        } else {
            (
                reset_line(MdView { in_code_block: false, ..s1 }),
                o1 + piece(fence_close_line(s1.max_cols), cyan()) + newline(),
            )
        }
    } else if !s1.in_code_block && is_rule(t) {
        (reset_line(s1), o1 + piece(repeat('─', s1.max_cols), dim()) + newline())
    } else {
        (reset_line(s1), o1 + newline())
    }
}

/// One character of a chunk: a newline ends the line (the pending word of a
/// rule, fence or table line is dropped, any other is shown first); a space
/// shows the pending word and then a space; any other character is added to
/// the pending word, which is shown once it is as wide as the output.
pub open spec fn char_spec(st: MdView, ch: char) -> (MdView, Seq<Piece>) {
    if ch == '\n' {
        let t = trim(st.line);
        let special = is_rule(t) || is_fence(t) || (!st.in_code_block && starts_bar(t));
        let (s1, o1) = if special {
            (MdView { pending: Seq::empty(), ..st }, Seq::empty())
        } else {
            flush_word_spec(st)
        };
        let (s2, o2) = line_break_spec(s1);
        (s2, o1 + o2)
    } else if ch == ' ' {
        let (s1, o1) = flush_word_spec(st);
        let (s2, o2) = space_spec(s1);
        (s2, o1 + o2)
    } else {
        let s1 = MdView { pending: st.pending.push(ch), line: st.line.push(ch), ..st };
        if s1.pending.len() >= s1.max_cols {
            flush_word_spec(s1)
        } else {
            (s1, Seq::empty())
        }
    }
}

/// The characters of a chunk, one after the other.
pub open spec fn chars_spec(st: MdView, s: Seq<char>) -> (MdView, Seq<Piece>)
    decreases s.len(),
{
    if s.len() == 0 {
        (st, Seq::empty())
    } else {
        let (s1, o1) = chars_spec(st, s.drop_last());
        let (s2, o2) = char_spec(s1, s.last());
        (s2, o1 + o2)
    }
}

/// A chunk of answer text; after reasoning, a line break comes first.
pub open spec fn write_chunk_spec(st: MdView, s: Seq<char>) -> (MdView, Seq<Piece>) {
    let (s0, o0) = if st.reasoning {
        (MdView { col: 0, line_start: true, reasoning: false, ..st }, newline())
    } else {
        (st, Seq::empty())
    };
    let (s1, o1) = chars_spec(s0, s);
    (s1, o0 + o1)
}

/// One character of reasoning, dimmed and italic, wrapped at the margin.
pub open spec fn reasoning_char_spec(st: MdView, ch: char) -> (MdView, Seq<Piece>) {
    if ch == '\n' {
        (MdView { col: 0, ..st }, newline())
    } else {
        let c = bump(st.col, 1);
        if c >= st.max_cols {
            (MdView { col: 0, ..st }, piece(seq![ch], dim_italic()) + newline())
        } else {
            (MdView { col: c, ..st }, piece(seq![ch], dim_italic()))
        }
    }
}

/// The characters of a reasoning chunk, one after the other.
pub open spec fn reasoning_chars_spec(st: MdView, s: Seq<char>) -> (MdView, Seq<Piece>)
    decreases s.len(),
{
    if s.len() == 0 {
        (st, Seq::empty())
    } else {
        let (s1, o1) = reasoning_chars_spec(st, s.drop_last());
        let (s2, o2) = reasoning_char_spec(s1, s.last());
        (s2, o1 + o2)
    }
}

/// A chunk of reasoning; the first one after answer text is introduced by a
/// `Thought:` heading on a line of its own.
pub open spec fn write_reasoning_spec(st: MdView, s: Seq<char>) -> (MdView, Seq<Piece>) {
    let (s0, o0) = if !st.reasoning {
        (
            MdView { reasoning: true, col: 0, line_start: true, ..st },
            (if !st.line_start {
                newline()
            } else {
                Seq::empty()
            }) + piece("Thought:"@, dim_italic()) + newline(),
        )
    } else {
        (st, Seq::empty())
    };
    let (s1, o1) = reasoning_chars_spec(s0, s);
    (s1, o0 + o1)
}

/// The end of the stream: the pending word is shown, an open table and an
/// open code block are closed, and the line is ended.
pub open spec fn flush_final_spec(st: MdView) -> (MdView, Seq<Piece>) {
    let (s1, o1) = flush_word_spec(st);
    let (s2, o2) = if s1.in_table {
        (MdView { in_table: false, widths: Seq::empty(), ..s1 }, bottom_border_out(s1.widths))
    } else {
        (s1, Seq::empty())
    };
    let (s3, o3) = if s2.in_code_block {
        (
            MdView { in_code_block: false, ..s2 },
            piece(fence_close_line(s2.max_cols), cyan()) + newline(),
        )
    } else {
        (s2, Seq::empty())
    };
    (s3, o1 + o2 + o3 + newline())
}

/// The state of a new renderer for a terminal of the given width.
pub open spec fn initial_view(term_width: u16) -> MdView {
    MdView {
        max_cols: max_nat(sat_sub(term_width as nat, 2), 20),
        col: 0,
        in_code_block: false,
        bold: false,
        italic: false,
        inline_code: false,
        strikethrough: false,
        line_start: true,
        line_type: LineType::Normal,
        line: Seq::empty(),
        pending: Seq::empty(),
        in_table: false,
        widths: Seq::empty(),
        reasoning: false,
    }
}

/// Whether the widths fit the drawing arithmetic.
pub open spec fn widths_bounded(ws: Seq<usize>) -> bool {
    forall|i: int| 0 <= i < ws.len() ==> #[trigger] ws[i] <= 0xffff
}

/// The parts of a sequence of character vectors.
pub open spec fn seqs(v: Seq<Vec<char>>) -> Seq<Seq<char>> {
    v.map_values(|x: Vec<char>| x@)
}

fn style_cyan() -> (r: Style)
    ensures
        r == cyan(),
{
    make_style(Tone::Cyan, false, false, false, false)
}

fn style_cyan_bold() -> (r: Style)
    ensures
        r == cyan_bold(),
{
    make_style(Tone::Cyan, true, false, false, false)
}

fn style_cyan_dim() -> (r: Style)
    ensures
        r == cyan_dim(),
{
    make_style(Tone::Cyan, false, true, false, false)
}

fn style_yellow_bold() -> (r: Style)
    ensures
        r == yellow_bold(),
{
    make_style(Tone::Yellow, true, false, false, false)
}

fn style_plain() -> (r: Style)
    ensures
        r == plain(),
{
    make_style(Tone::Plain, false, false, false, false)
}

fn style_dim_italic() -> (r: Style)
    ensures
        r == dim_italic(),
{
    make_style(Tone::Plain, false, true, true, false)
}

/// Moves the characters out of a vector, leaving it empty.
fn take_chars(v: &mut Vec<char>) -> (r: Vec<char>)
    ensures
        r@ == old(v)@,
        final(v)@ == Seq::<char>::empty(),
{
    let mut r: Vec<char> = Vec::new();
    std::mem::swap(&mut r, v);
    r
}

/// The header level that a word opens, or zero.
fn header_level_of(w: &Vec<char>) -> (r: u8)
    ensures
        r == header_level(w@),
{
    if crate::text::chars_eq_str(w, "#") {
        1
    } else if crate::text::chars_eq_str(w, "##") {
        2
    } else if crate::text::chars_eq_str(w, "###") {
        3
    } else if crate::text::chars_eq_str(w, "####") || crate::text::chars_eq_str(w, "#####")
        || crate::text::chars_eq_str(w, "######") {
        4
    } else {
        0
    }
}

/// Whether a word opens a numbered list item.
fn number_mark(w: &Vec<char>) -> (r: bool)
    ensures
        r == is_number_mark(w@),
{
    if w.len() == 0 || w[w.len() - 1] != '.' || w.len() > 4 {
        return false;
    }
    let mut i: usize = 0;
    while i < w.len()
        invariant
            i <= w.len(),
            forall|k: int| 0 <= k < i ==> (('0' <= #[trigger] w@[k] && w@[k] <= '9') || w@[k] == '.'),
        decreases w.len() - i,
    {
        let c = w[i];
        if !(('0' <= c && c <= '9') || c == '.') {
            return false;
        }
        i = i + 1;
    }
    true
}

/// A table border over the given column widths.
fn border_line(left: char, mid: char, end: char, ws: &Vec<usize>) -> (r: Vec<char>)
    requires
        widths_bounded(ws@),
    ensures
        r@ == border(left, mid, end, nat_widths(ws@)),
{
    let ghost nw = nat_widths(ws@);
    let mut line: Vec<char> = Vec::new();
    line.push(left);
    let mut i: usize = 0;
    while i < ws.len()
        invariant
            nw == nat_widths(ws@),
            widths_bounded(ws@),
            i <= ws.len(),
            line@ == seq![left] + border_cells(nw, i as nat, mid, end),
        decreases ws.len() - i,
    {
        let ghost before = line@;
        push_repeat(&mut line, '─', ws[i] + 2);
        if i + 1 < ws.len() {
            line.push(mid);
        } else {
            line.push(end);
        }
        proof {
            assert(nw[i as int] == ws@[i as int] as nat);
            assert(line@ =~= seq![left] + border_cells(nw, (i + 1) as nat, mid, end));
        }
        i = i + 1;
    }
    line
}

/// The characters of `t` split at every `|`.
fn split_bar_chars(t: &Vec<char>) -> (r: Vec<Vec<char>>)
    ensures
        seqs(r@) == split_bar(t@),
{
    let mut done: Vec<Vec<char>> = Vec::new();
    let mut cur: Vec<char> = Vec::new();
    let mut i: usize = 0;
    assert(t@.take(0) =~= Seq::<char>::empty());
    assert(seqs(done@).push(cur@) =~= split_bar(t@.take(0)));
    while i < t.len()
        invariant
            i <= t.len(),
            seqs(done@).push(cur@) == split_bar(t@.take(i as int)),
        decreases t.len() - i,
    {
        let ch = t[i];
        let ghost prev = t@.take(i as int);
        assert(t@.take(i + 1).drop_last() =~= prev);
        if ch == '|' {
            let c = cur;
            done.push(c);
            cur = Vec::new();
            assert(seqs(done@).push(cur@) =~= split_bar(t@.take(i + 1)));
        } else {
            cur.push(ch);
            assert(seqs(done@).push(cur@) =~= split_bar(t@.take(i + 1)));
        }
        i = i + 1;
    }
    assert(t@.take(t.len() as int) =~= t@);
    done.push(cur);
    done
}

/// Whether every cell belongs to a separator row.
fn all_separator_cells(cells: &Vec<Vec<char>>) -> (r: bool)
    ensures
        r == forall|k: int| 0 <= k < cells@.len() ==> is_separator_cell(#[trigger] seqs(cells@)[k]),
{
    let mut i: usize = 0;
    while i < cells.len()
        invariant
            i <= cells.len(),
            forall|k: int| 0 <= k < i ==> is_separator_cell(#[trigger] seqs(cells@)[k]),
        decreases cells.len() - i,
    {
        let c = &cells[i];
        assert(seqs(cells@)[i as int] == c@);
        let mut j: usize = 0;
        while j < c.len()
            invariant
                i < cells@.len(),
                seqs(cells@)[i as int] == c@,
                j <= c.len(),
                forall|k: int| 0 <= k < j ==> (#[trigger] c@[k] == '-' || c@[k] == ':' || c@[k] == ' '),
            decreases c.len() - j,
        {
            let x = c[j];
            if !(x == '-' || x == ':' || x == ' ') {
                assert(!is_separator_cell(c@));
                return false;
            }
            j = j + 1;
        }
        assert(seqs(cells@)[i as int] == c@);
        i = i + 1;
    }
    true
}

/// The cells of a table row.
fn row_cells_chars(t: &Vec<char>) -> (r: (Vec<Vec<char>>, usize))
    ensures
        seqs(r.0@) == row_cells(t@),
        r.1 == split_bar(t@).len(),
{
    let parts = split_bar_chars(t);
    let ghost ps = split_bar(t@);
    let np = parts.len();
    assert(np == ps.len());
    let mut start: usize = 0;
    let mut end: usize = np;
    if np > 0 && trim_chars(&parts[0]).len() == 0 {
        start = 1;
    }
    if end > start && trim_chars(&parts[np - 1]).len() == 0 {
        end = np - 1;
    }
    let mut cells: Vec<Vec<char>> = Vec::new();
    if start < end {
        let mut i = start;
        while i < end
            invariant
                seqs(parts@) == ps,
                start <= i <= end <= parts.len(),
                seqs(cells@) =~= ps.subrange(start as int, i as int).map_values(
                    |p: Seq<char>| trim(p),
                ),
            decreases end - i,
        {
            let tc = trim_chars(&parts[i]);
            assert(seqs(parts@)[i as int] == parts@[i as int]@);
            let ghost before = seqs(cells@);
            cells.push(tc);
            assert(seqs(cells@) =~= before.push(tc@));
            assert(ps.subrange(start as int, i + 1).map_values(|p: Seq<char>| trim(p)) =~= ps.subrange(
                start as int,
                i as int,
            ).map_values(|p: Seq<char>| trim(p)).push(trim(ps[i as int])));
            i = i + 1;
        }
    }
    proof {
        if np > 0 {
            assert(seqs(parts@)[0] == parts@[0]@);
            assert(seqs(parts@).last() == parts@[np - 1]@);
        }
        if !(start < end) {
            assert(seqs(cells@) =~= Seq::<Seq<char>>::empty());
        }
    }
    (cells, np)
}

/// The length in UTF-8 bytes of a character sequence.
fn utf8_length(s: &Vec<char>) -> (r: u128)
    ensures
        r == utf8_len(s@),
        r <= 4 * s@.len(),
{
    let mut total: u128 = 0;
    let mut i: usize = 0;
    while i < s.len()
        invariant
            i <= s.len(),
            total == utf8_len(s@.take(i as int)),
            total <= 4 * i,
        decreases s.len() - i,
    {
        let n = s[i] as u32;
        let w: u128 = if n < 0x80 {
            1
        } else if n < 0x800 {
            2
        } else if n < 0x10000 {
            3
        } else {
            4
        };
        assert(s@.take(i + 1).drop_last() =~= s@.take(i as int));
        total = total + w;
        i = i + 1;
    }
    assert(s@.take(s.len() as int) =~= s@);
    total
}

/// `s` without leading `c`s.
fn strip_leading_chars(s: &Vec<char>, c: char) -> (r: Vec<char>)
    ensures
        r@ == strip_leading(s@, c),
{
    let mut i: usize = 0;
    assert(s@.skip(0) =~= s@);
    while i < s.len() && s[i] == c
        invariant
            i <= s.len(),
            strip_leading(s@, c) == strip_leading(s@.skip(i as int), c),
        decreases s.len() - i,
    {
        assert(s@.skip(i as int).skip(1) =~= s@.skip(i + 1));
        i = i + 1;
    }
    let r = slice_chars(s, i, s.len());
    assert(r@ =~= s@.skip(i as int));
    r
}

/// The heading line of a code block.
fn fence_open(max_cols: usize, t: &Vec<char>) -> (r: Vec<char>)
    requires
        max_cols <= 0xffff,
    ensures
        r@ == fence_open_line(max_cols as nat, t@),
{
    let a = strip_leading_chars(t, '`');
    let b = strip_leading_chars(&a, '~');
    let c = trim_chars(&b);
    let label = if c.len() == 0 {
        crate::text::chars_of("code")
    } else {
        c
    };
    let ulen = utf8_length(&label);
    let label_len = label.len();
    assert(ulen <= 4 * (label_len as u128));
    let room: usize = if (max_cols as u128) > ulen + 7 {
        (max_cols as u128 - ulen - 7) as usize
    } else {
        0
    };
    let fence_len: usize = if room >= 4 {
        room
    } else {
        4
    };
    let mut line = crate::text::chars_of("╭── [ ");
    let ghost l0 = line@;
    let mut k: usize = 0;
    while k < label.len()
        invariant
            k <= label.len(),
            line@ == l0 + label@.take(k as int),
        decreases label.len() - k,
    {
        line.push(label[k]);
        k = k + 1;
        assert(line@ =~= l0 + label@.take(k as int));
    }
    assert(label@.take(label.len() as int) =~= label@);
    let tail = crate::text::chars_of(" ] ");
    let mut k2: usize = 0;
    let ghost l1 = line@;
    while k2 < tail.len()
        invariant
            k2 <= tail.len(),
            line@ == l1 + tail@.take(k2 as int),
        decreases tail.len() - k2,
    {
        line.push(tail[k2]);
        k2 = k2 + 1;
        assert(line@ =~= l1 + tail@.take(k2 as int));
    }
    assert(tail@.take(tail.len() as int) =~= tail@);
    push_repeat(&mut line, '─', fence_len);
    proof {
        assert(line@ =~= fence_open_line(max_cols as nat, t@));
    }
    line
}

/// The closing line of a code block.
fn fence_close(max_cols: usize) -> (r: Vec<char>)
    ensures
        r@ == fence_close_line(max_cols as nat),
{
    let mut line: Vec<char> = Vec::new();
    line.push('╰');
    let n: usize = if max_cols > 1 {
        max_cols - 1
    } else {
        0
    };
    push_repeat(&mut line, '─', n);
    line
}

impl MarkdownStreamProcessor {
    /// The renderer's arithmetic stays in range: the width comes from a
    /// terminal width and column widths are bounded.
    pub closed spec fn wf(&self) -> bool {
        &&& self.max_cols <= 0xffff
        &&& widths_bounded(self.table_col_widths@)
    }

    /// A renderer for a terminal of the given width; lines are two columns
    /// narrower than the terminal, and at least twenty wide.
    pub fn new(term_width: u16) -> (r: Self)
        ensures
            r.wf(),
            r@ == initial_view(term_width),
    {
        let w = term_width as usize;
        let narrower: usize = if w > 2 {
            w - 2
        } else {
            0
        };
        let max_cols: usize = if narrower >= 20 {
            narrower
        } else {
            20
        };
        let r = MarkdownStreamProcessor {
            max_cols,
            col_count: 0,
            in_code_block: false,
            in_bold: false,
            in_italic: false,
            in_inline_code: false,
            in_strikethrough: false,
            is_line_start: true,
            current_line_type: LineType::Normal,
            line_buffer: Vec::new(),
            pending_word: Vec::new(),
            in_table: false,
            table_col_widths: Vec::new(),
            is_reasoning: false,
        };
        assert(r@ =~= initial_view(term_width));
        r
    }

    fn current_style(&self) -> (r: Style)
        ensures
            r == segment_style(self@),
    {
        if self.in_inline_code {
            return style_yellow_bold();
        }
        match self.current_line_type {
            LineType::Header(1) => make_style(Tone::Magenta, true, false, false, false),
            LineType::Header(2) => style_cyan_bold(),
            LineType::Header(3) => style_yellow_bold(),
            LineType::Header(4) => make_style(Tone::Blue, true, false, false, false),
            LineType::Blockquote => make_style(Tone::Cyan, false, true, true, false),
            _ => make_style(
                Tone::Plain,
                self.in_bold,
                false,
                self.in_italic,
                self.in_strikethrough,
            ),
        }
    }

    fn flush_segment(&mut self, segment: &Vec<char>, out: &mut Vec<Span>)
        requires
            old(self).wf(),
        ensures
            final(self).wf(),
            final(self)@ == flush_segment_spec(old(self)@, segment@).0,
            pieces(final(out)@) == pieces(old(out)@) + flush_segment_spec(old(self)@, segment@).1,
    {
        if segment.len() == 0 {
            assert(pieces(out@) + Seq::<Piece>::empty() =~= pieces(out@));
            return;
        }
        let style = self.current_style();
        self.col_count = self.col_count.saturating_add(segment.len());
        emit(out, string_of(segment), style);
    }

    #[verifier::spinoff_prover]
    #[verifier::rlimit(50)]
    fn inline_step(
        &mut self,
        word: &Vec<char>,
        i: usize,
        segment: &mut Vec<char>,
        out: &mut Vec<Span>,
    ) -> (next: usize)
        requires
            old(self).wf(),
            i < word.len(),
        ensures
            final(self).wf(),
            i < next <= word.len(),
            inline_from(final(self)@, word@, next as int, final(segment)@).0 == inline_from(
                old(self)@,
                word@,
                i as int,
                old(segment)@,
            ).0,
            pieces(final(out)@) + inline_from(final(self)@, word@, next as int, final(segment)@).1
                == pieces(old(out)@) + inline_from(old(self)@, word@, i as int, old(segment)@).1,
    {
        let ghost w = word@;
        let ghost p0 = pieces(out@);
        let n = word.len();
        let ch = word[i];
        if ch == '`' {
            let seg = take_chars(segment);
            self.flush_segment(&seg, out);
            self.in_inline_code = !self.in_inline_code;
            let ghost o2 = inline_from(self@, w, i + 1, Seq::empty()).1;
            let ghost o1 = flush_segment_spec(old(self)@, seg@).1;
            assert((p0 + o1) + o2 =~= p0 + (o1 + o2));
            i + 1
        } else if self.in_inline_code {
            segment.push(ch);
            i + 1
        } else if ch == '*' || ch == '_' {
            let seg = take_chars(segment);
            self.flush_segment(&seg, out);
            let ghost o1 = flush_segment_spec(old(self)@, seg@).1;
            if i + 1 < n && word[i + 1] == ch {
                self.in_bold = !self.in_bold;
                let ghost o2 = inline_from(self@, w, i + 2, Seq::empty()).1;
                assert((p0 + o1) + o2 =~= p0 + (o1 + o2));
                i + 2
            } else {
                self.in_italic = !self.in_italic;
                let ghost o2 = inline_from(self@, w, i + 1, Seq::empty()).1;
                assert((p0 + o1) + o2 =~= p0 + (o1 + o2));
                i + 1
            }
        } else if ch == '~' {
            if i + 1 < n && word[i + 1] == '~' {
                let seg = take_chars(segment);
                self.flush_segment(&seg, out);
                self.in_strikethrough = !self.in_strikethrough;
                let ghost o1 = flush_segment_spec(old(self)@, seg@).1;
                let ghost o2 = inline_from(self@, w, i + 2, Seq::empty()).1;
                assert((p0 + o1) + o2 =~= p0 + (o1 + o2));
                i + 2
            } else {
                segment.push('~');
                if i + 1 < n {
                    i + 2
                } else {
                    assert(inline_from(self@, w, i + 2, segment@) == inline_from(
                        self@,
                        w,
                        n as int,
                        segment@,
                    ));
                    n
                }
            }
        } else {
            segment.push(ch);
            i + 1
        }
    }

    fn print_styled_inline(&mut self, word: &Vec<char>, out: &mut Vec<Span>)
        requires
            old(self).wf(),
        ensures
            final(self).wf(),
            final(self)@ == inline_from(old(self)@, word@, 0, Seq::empty()).0,
            pieces(final(out)@) == pieces(old(out)@) + inline_from(
                old(self)@,
                word@,
                0,
                Seq::empty(),
            ).1,
    {
        let ghost v0 = self@;
        let ghost base = pieces(out@);
        let ghost w = word@;
        let n = word.len();
        let mut segment: Vec<char> = Vec::new();
        let mut i: usize = 0;
        while i < n
            invariant
                n == w.len(),
                w == word@,
                self.wf(),
                i <= n,
                inline_from(self@, w, i as int, segment@).0 == inline_from(v0, w, 0, Seq::empty()).0,
                pieces(out@) + inline_from(self@, w, i as int, segment@).1 == base + inline_from(
                    v0,
                    w,
                    0,
                    Seq::empty(),
                ).1,
            decreases n - i,
        {
            i = self.inline_step(word, i, &mut segment, out);
        }
        self.flush_segment(&segment, out);
    }

    fn is_table_line(&self) -> (r: bool)
        ensures
            r == is_table_line_spec(self@),
    {
        if self.in_code_block {
            return false;
        }
        let t = trim_chars(&self.line_buffer);
        (t.len() > 0 && t[0] == '|') || (self.in_table && contains_char(&t, '|'))
    }

    fn word_start(&mut self, out: &mut Vec<Span>)
        requires
            old(self).wf(),
        ensures
            final(self).wf(),
            final(self)@ == word_start_spec(old(self)@).0,
            pieces(final(out)@) == pieces(old(out)@) + word_start_spec(old(self)@).1,
    {
        if self.is_line_start {
            if self.in_code_block {
                emit_str(out, "│ ", style_cyan());
                self.col_count = 2;
                self.is_line_start = false;
                return;
            } else {
                self.is_line_start = false;
            }
        }
        assert(pieces(out@) + Seq::<Piece>::empty() =~= pieces(out@));
    }

    fn word_gap(&mut self, vis: usize, out: &mut Vec<Span>)
        requires
            old(self).wf(),
        ensures
            final(self).wf(),
            final(self)@ == word_gap_spec(old(self)@, vis as nat).0,
            pieces(final(out)@) == pieces(old(out)@) + word_gap_spec(old(self)@, vis as nat).1,
    {
        let ghost p0 = pieces(out@);
        if self.col_count > 0 && (self.col_count as u128) + 1 + (vis as u128) > (self.max_cols as u128) {
            emit_newline(out);
            if self.in_code_block {
                emit_str(out, "│ ", style_cyan());
                self.col_count = 2;
            } else if self.current_line_type == LineType::Blockquote {
                emit_str(out, "│ ", style_cyan_dim());
                self.col_count = 2;
            } else if self.current_line_type == LineType::BulletList || self.current_line_type
                == LineType::NumberedList {
                emit_str(out, "  ", style_plain());
                self.col_count = 2;
            } else {
                self.col_count = 0;
            }
            assert(pieces(out@) =~= p0 + word_gap_spec(old(self)@, vis as nat).1);
        } else if self.col_count > 0 {
            emit_str(out, " ", style_plain());
            self.col_count = self.col_count.saturating_add(1);
        } else {
            assert(pieces(out@) + Seq::<Piece>::empty() =~= pieces(out@));
        }
    }

    fn word_body(&mut self, word: &Vec<char>, out: &mut Vec<Span>)
        requires
            old(self).wf(),
        ensures
            final(self).wf(),
            final(self)@ == word_body_spec(old(self)@, word@).0,
            pieces(final(out)@) == pieces(old(out)@) + word_body_spec(old(self)@, word@).1,
    {
        if self.in_code_block {
            self.col_count = self.col_count.saturating_add(word.len());
            emit(out, string_of(word), style_cyan());
        } else {
            self.print_styled_inline(word, out);
        }
    }

    /// Shows the word after the line-start markers have been dealt with.
    fn place_word(&mut self, word: &Vec<char>, out: &mut Vec<Span>)
        requires
            old(self).wf(),
        ensures
            final(self).wf(),
            ({
                let (s1, o1) = word_start_spec(old(self)@);
                let (s2, o2) = word_gap_spec(s1, visible_len(word@, s1.in_code_block));
                let (s3, o3) = word_body_spec(s2, word@);
                &&& final(self)@ == s3
                &&& pieces(final(out)@) == pieces(old(out)@) + (o1 + o2 + o3)
            }),
    {
        let ghost p0 = pieces(out@);
        self.word_start(out);
        let ghost p1 = pieces(out@);
        let vis = visible_chars(word, self.in_code_block).len();
        self.word_gap(vis, out);
        let ghost p2 = pieces(out@);
        self.word_body(word, out);
        proof {
            assert(pieces(out@) =~= p0 + (p1.skip(p0.len() as int) + p2.skip(p1.len() as int)
                + pieces(out@).skip(p2.len() as int)));
        }
    }

    fn flush_pending_word(&mut self, out: &mut Vec<Span>)
        requires
            old(self).wf(),
        ensures
            final(self).wf(),
            final(self)@ == flush_word_spec(old(self)@).0,
            pieces(final(out)@) == pieces(old(out)@) + flush_word_spec(old(self)@).1,
    {
        if self.pending_word.len() == 0 || self.is_table_line() {
            assert(pieces(out@) + Seq::<Piece>::empty() =~= pieces(out@));
            return;
        }
        let word = take_chars(&mut self.pending_word);
        if self.is_line_start && !self.in_code_block {
            let level = header_level_of(&word);
            if level > 0 {
                self.current_line_type = LineType::Header(level);
                self.is_line_start = false;
                assert(pieces(out@) + Seq::<Piece>::empty() =~= pieces(out@));
                return;
            }
            if crate::text::chars_eq_str(&word, "-") || crate::text::chars_eq_str(&word, "*")
                || crate::text::chars_eq_str(&word, "+") {
                self.current_line_type = LineType::BulletList;
                emit_str(out, "• ", style_cyan_bold());
                self.col_count = 2;
                self.is_line_start = false;
                return;
            }
            if crate::text::chars_eq_str(&word, ">") {
                self.current_line_type = LineType::Blockquote;
                emit_str(out, "│ ", style_cyan_dim());
                self.col_count = 2;
                self.is_line_start = false;
                return;
            }
            if number_mark(&word) {
                self.current_line_type = LineType::NumberedList;
                let ghost p0 = pieces(out@);
                emit(out, string_of(&word), style_yellow_bold());
                emit_str(out, " ", style_plain());
                assert(pieces(out@) =~= p0 + (piece(word@, yellow_bold()) + piece(" "@, plain())));
                self.col_count = word.len() + 1;
                self.is_line_start = false;
                return;
            }
        }
        self.place_word(&word, out);
    }

    fn handle_space(&mut self, out: &mut Vec<Span>)
        requires
            old(self).wf(),
        ensures
            final(self).wf(),
            final(self)@ == space_spec(old(self)@).0,
            pieces(final(out)@) == pieces(old(out)@) + space_spec(old(self)@).1,
    {
        if self.is_line_start || self.is_table_line() {
            assert(pieces(out@) + Seq::<Piece>::empty() =~= pieces(out@));
            return;
        }
        if self.col_count > 0 && self.col_count < self.max_cols {
            emit_str(out, " ", style_plain());
            self.col_count = self.col_count + 1;
        } else {
            assert(pieces(out@) + Seq::<Piece>::empty() =~= pieces(out@));
        }
    }

    fn print_table_bottom_border(&self, out: &mut Vec<Span>)
        requires
            self.wf(),
        ensures
            pieces(final(out)@) == pieces(old(out)@) + bottom_border_out(self@.widths),
    {
        if self.table_col_widths.len() == 0 {
            assert(pieces(out@) + Seq::<Piece>::empty() =~= pieces(out@));
            return;
        }
        let line = border_line('└', '┴', '┘', &self.table_col_widths);
        let ghost p0 = pieces(out@);
        emit(out, string_of(&line), style_cyan_dim());
        emit_newline(out);
        assert(pieces(out@) =~= p0 + bottom_border_out(self@.widths));
    }

    fn reset_line(&mut self)
        requires
            old(self).wf(),
        ensures
            final(self).wf(),
            final(self)@ == reset_line(old(self)@),
    {
        self.line_buffer = Vec::new();
        self.pending_word = Vec::new();
        self.is_line_start = true;
        self.col_count = 0;
        self.current_line_type = LineType::Normal;
        assert(self@ =~= reset_line(old(self)@));
    }

    fn grow_widths(&mut self, cells: &Vec<Vec<char>>, mcw: usize)
        requires
            old(self).wf(),
            mcw <= 0xffff,
        ensures
            final(self).wf(),
            final(self)@ == (MdView {
                widths: grow_widths(old(self)@.widths, seqs(cells@), cells@.len(), mcw as nat),
                ..old(self)@
            }),
    {
        let ghost orig = self.table_col_widths@;
        let mut idx: usize = 0;
        while idx < cells.len()
            invariant
                self.max_cols == old(self).max_cols,
                self.col_count == old(self).col_count,
                self.in_code_block == old(self).in_code_block,
                self.in_bold == old(self).in_bold,
                self.in_italic == old(self).in_italic,
                self.in_inline_code == old(self).in_inline_code,
                self.in_strikethrough == old(self).in_strikethrough,
                self.is_line_start == old(self).is_line_start,
                self.current_line_type == old(self).current_line_type,
                self.line_buffer == old(self).line_buffer,
                self.pending_word == old(self).pending_word,
                self.in_table == old(self).in_table,
                self.is_reasoning == old(self).is_reasoning,
                orig == old(self)@.widths,
                self.wf(),
                mcw <= 0xffff,
                idx <= cells.len(),
                self.table_col_widths@ == grow_widths(orig, seqs(cells@), idx as nat, mcw as nat),
            decreases cells.len() - idx,
        {
            assert(seqs(cells@)[idx as int] == cells@[idx as int]@);
            let vis0 = visible_chars(&cells[idx], false).len();
            let vis = if vis0 <= mcw {
                vis0
            } else {
                mcw
            };
            if idx >= self.table_col_widths.len() {
                let v = if vis >= 4 {
                    vis
                } else {
                    4
                };
                self.table_col_widths.push(v);
            } else {
                let w = self.table_col_widths[idx];
                let a = if w >= vis {
                    w
                } else {
                    vis
                };
                let b = if a <= mcw {
                    a
                } else {
                    mcw
                };
                let c = if b >= 4 {
                    b
                } else {
                    4
                };
                self.table_col_widths.set(idx, c);
            }
            idx = idx + 1;
        }
        assert(self@ =~= (MdView {
            widths: grow_widths(old(self)@.widths, seqs(cells@), cells@.len(), mcw as nat),
            ..old(self)@
        }));
    }

    fn row_cell(&mut self, cells: &Vec<Vec<char>>, mcw: usize, i: usize, out: &mut Vec<Span>)
        requires
            old(self).wf(),
            i < cells@.len(),
            mcw <= 0xffff,
        ensures
            final(self).wf(),
            row_from(final(self)@, seqs(cells@), mcw as nat, i + 1).0 == row_from(
                old(self)@,
                seqs(cells@),
                mcw as nat,
                i as int,
            ).0,
            pieces(final(out)@) + row_from(final(self)@, seqs(cells@), mcw as nat, i + 1).1
                == pieces(old(out)@) + row_from(old(self)@, seqs(cells@), mcw as nat, i as int).1,
    {
        let ghost p0 = pieces(out@);
        let ghost cs = seqs(cells@);
        assert(cs[i as int] == cells@[i as int]@);
        let width: usize = if i < self.table_col_widths.len() {
            self.table_col_widths[i]
        } else {
            4
        };
        let target = if width <= mcw {
            width
        } else {
            mcw
        };
        assert(target == cell_target(old(self)@.widths, i as int, mcw as nat));
        let (display, vis) = fit_cell(&cells[i], target);
        let pad: usize = if target > vis {
            target - vis
        } else {
            0
        };
        emit_str(out, " ", style_plain());
        let ghost p1 = pieces(out@);
        self.print_styled_inline(&display, out);
        let ghost p2 = pieces(out@);
        let mut gap: Vec<char> = Vec::new();
        push_repeat(&mut gap, ' ', pad + 1);
        emit(out, string_of(&gap), style_plain());
        emit_str(out, "│", style_cyan());
        proof {
            let o2 = row_from(self@, cs, mcw as nat, i + 1).1;
            let o1 = p2.skip(p1.len() as int);
            assert(pieces(out@) + o2 =~= p0 + (piece(" "@, plain()) + o1 + piece(
                repeat(' ', sat_sub(target as nat, vis as nat) + 1),
                plain(),
            ) + piece("│"@, cyan()) + o2));
        }
    }

    fn handle_table_row(&mut self, t: &Vec<char>, out: &mut Vec<Span>)
        requires
            old(self).wf(),
        ensures
            final(self).wf(),
            final(self)@ == table_row_spec(old(self)@, t@).0,
            pieces(final(out)@) == pieces(old(out)@) + table_row_spec(old(self)@, t@).1,
    {
        let ghost p0 = pieces(out@);
        let (cells, nparts) = row_cells_chars(t);
        let ghost cs = seqs(cells@);
        if nparts < 2 || cells.len() == 0 {
            assert(pieces(out@) + Seq::<Piece>::empty() =~= pieces(out@));
            return;
        }
        let n = cells.len();
        let mcw = max_width(self.max_cols, n);
        if all_separator_cells(&cells) {
            self.in_table = true;
            let line = if self.table_col_widths.len() == 0 {
                let mut ws: Vec<usize> = Vec::new();
                let mut k: usize = 0;
                while k < n
                    invariant
                        k <= n,
                        mcw <= 0xffff,
                        ws@.len() == k,
                        forall|j: int| 0 <= j < k ==> ws@[j] == mcw,
                    decreases n - k,
                {
                    ws.push(mcw);
                    k = k + 1;
                }
                assert(nat_widths(ws@) =~= Seq::new(n as nat, |_i: int| mcw as nat));
                border_line('├', '┼', '┤', &ws)
            } else {
                border_line('├', '┼', '┤', &self.table_col_widths)
            };
            emit(out, string_of(&line), style_cyan_dim());
            emit_newline(out);
            assert(pieces(out@) =~= p0 + table_row_spec(old(self)@, t@).1);
            return;
        }
        self.grow_widths(&cells, mcw);
        let ghost s1 = self@;
        let ghost p1 = pieces(out@);
        if !self.in_table {
            self.in_table = true;
            let line = border_line('┌', '┬', '┐', &self.table_col_widths);
            emit(out, string_of(&line), style_cyan_dim());
            emit_newline(out);
        }
        let ghost s2 = self@;
        let ghost p2 = pieces(out@);
        emit_str(out, "│", style_cyan());
        let ghost p3 = pieces(out@);
        let mut i: usize = 0;
        while i < n
            invariant
                n == cells@.len(),
                cs == seqs(cells@),
                mcw <= 0xffff,
                self.wf(),
                i <= n,
                row_from(self@, cs, mcw as nat, i as int).0 == row_from(s2, cs, mcw as nat, 0).0,
                pieces(out@) + row_from(self@, cs, mcw as nat, i as int).1 == p3 + row_from(
                    s2,
                    cs,
                    mcw as nat,
                    0,
                ).1,
            decreases n - i,
        {
            self.row_cell(&cells, mcw, i, out);
            i = i + 1;
        }
        let ghost p4 = pieces(out@);
        emit_newline(out);
        proof {
            assert(pieces(out@) =~= p0 + (p2.skip(p0.len() as int) + piece("│"@, cyan())
                + p4.skip(p3.len() as int) + newline()));
        }
    }

    #[verifier::spinoff_prover]
    #[verifier::rlimit(60)]
    fn handle_line_break(&mut self, out: &mut Vec<Span>)
        requires
            old(self).wf(),
        ensures
            final(self).wf(),
            final(self)@ == line_break_spec(old(self)@).0,
            pieces(final(out)@) == pieces(old(out)@) + line_break_spec(old(self)@).1,
    {
        let ghost p0 = pieces(out@);
        let t = trim_chars(&self.line_buffer);
        let bar = t.len() > 0 && t[0] == '|';
        if self.in_table && !bar {
            self.print_table_bottom_border(out);
            self.in_table = false;
            self.table_col_widths = Vec::new();
        }
        let ghost p1 = pieces(out@);
        if !self.in_code_block && (bar || (self.in_table && contains_char(&t, '|'))) {
            self.handle_table_row(&t, out);
            self.reset_line();
            assert(pieces(out@) =~= p0 + (p1.skip(p0.len() as int) + pieces(out@).skip(
                p1.len() as int,
            )));
            return;
        }
        if starts_with_str(&t, "```") || starts_with_str(&t, "~~~") {
            if !self.in_code_block {
                self.in_code_block = true;
                let line = fence_open(self.max_cols, &t);
                emit(out, string_of(&line), style_cyan_bold());
            } else {
                self.in_code_block = false;
                let line = fence_close(self.max_cols);
                emit(out, string_of(&line), style_cyan());
            }
            emit_newline(out);
            self.reset_line();
            assert(pieces(out@) =~= p0 + (p1.skip(p0.len() as int) + pieces(out@).skip(
                p1.len() as int,
            )));
            return;
        }
        if !self.in_code_block && (crate::text::chars_eq_str(&t, "---")
            || crate::text::chars_eq_str(&t, "***") || crate::text::chars_eq_str(&t, "___")) {
            let mut rule: Vec<char> = Vec::new();
            push_repeat(&mut rule, '─', self.max_cols);
            emit(out, string_of(&rule), make_style(Tone::Plain, false, true, false, false));
            emit_newline(out);
            self.reset_line();
            assert(pieces(out@) =~= p0 + (p1.skip(p0.len() as int) + pieces(out@).skip(
                p1.len() as int,
            )));
            return;
        }
        emit_newline(out);
        self.reset_line();
        assert(pieces(out@) =~= p0 + (p1.skip(p0.len() as int) + pieces(out@).skip(
            p1.len() as int,
        )));
    }

    #[verifier::spinoff_prover]
    #[verifier::rlimit(50)]
    fn process_char(&mut self, ch: char, out: &mut Vec<Span>)
        requires
            old(self).wf(),
        ensures
            final(self).wf(),
            final(self)@ == char_spec(old(self)@, ch).0,
            pieces(final(out)@) == pieces(old(out)@) + char_spec(old(self)@, ch).1,
    {
        let ghost p0 = pieces(out@);
        if ch == '\n' {
            let t = trim_chars(&self.line_buffer);
            let special = crate::text::chars_eq_str(&t, "---") || crate::text::chars_eq_str(
                &t,
                "***",
            ) || crate::text::chars_eq_str(&t, "___") || starts_with_str(&t, "```")
                || starts_with_str(&t, "~~~") || (!self.in_code_block && t.len() > 0 && t[0]
                == '|');
            if special {
                self.pending_word = Vec::new();
            } else {
                self.flush_pending_word(out);
            }
            let ghost p1 = pieces(out@);
            self.handle_line_break(out);
            assert(pieces(out@) =~= p0 + (p1.skip(p0.len() as int) + pieces(out@).skip(
                p1.len() as int,
            )));
        } else if ch == ' ' {
            self.flush_pending_word(out);
            let ghost p1 = pieces(out@);
            self.handle_space(out);
            assert(pieces(out@) =~= p0 + (p1.skip(p0.len() as int) + pieces(out@).skip(
                p1.len() as int,
            )));
        } else {
            self.pending_word.push(ch);
            self.line_buffer.push(ch);
            if self.pending_word.len() >= self.max_cols {
                self.flush_pending_word(out);
            } else {
                assert(pieces(out@) + Seq::<Piece>::empty() =~= pieces(out@));
            }
        }
    }

    /// Renders a chunk of answer text; after reasoning output, a line break
    /// comes first.
    pub fn write_chunk(&mut self, chunk: &str) -> (r: Vec<Span>)
        requires
            old(self).wf(),
        ensures
            final(self).wf(),
            final(self)@ == write_chunk_spec(old(self)@, chunk@).0,
            pieces(r@) == write_chunk_spec(old(self)@, chunk@).1,
    {
        let mut out: Vec<Span> = Vec::new();
        if self.is_reasoning {
            emit_newline(&mut out);
            self.col_count = 0;
            self.is_line_start = true;
            self.is_reasoning = false;
        }
        let ghost s0 = self@;
        let ghost o0 = pieces(out@);
        assert(o0 =~= pieces(Seq::<Span>::empty()) + (if old(self)@.reasoning {
            newline()
        } else {
            Seq::empty()
        }));
        let cs = crate::text::chars_of(chunk);
        let mut i: usize = 0;
        assert(cs@.take(0) =~= Seq::<char>::empty());
        assert(o0 + Seq::<Piece>::empty() =~= o0);
        while i < cs.len()
            invariant
                self.wf(),
                i <= cs@.len(),
                self@ == chars_spec(s0, cs@.take(i as int)).0,
                pieces(out@) == o0 + chars_spec(s0, cs@.take(i as int)).1,
            decreases cs.len() - i,
        {
            let ghost before = pieces(out@);
            self.process_char(cs[i], &mut out);
            proof {
                assert(cs@.take(i + 1).drop_last() =~= cs@.take(i as int));
                assert(cs@.take(i + 1).last() == cs@[i as int]);
                assert(pieces(out@) =~= o0 + chars_spec(s0, cs@.take(i + 1)).1);
            }
            i = i + 1;
        }
        assert(cs@.take(cs.len() as int) =~= chunk@);
        out
    }

    /// Renders a chunk of reasoning, dimmed and italic; the first chunk after
    /// answer text is introduced by a `Thought:` heading.
    pub fn write_reasoning_chunk(&mut self, chunk: &str) -> (r: Vec<Span>)
        requires
            old(self).wf(),
        ensures
            final(self).wf(),
            final(self)@ == write_reasoning_spec(old(self)@, chunk@).0,
            pieces(r@) == write_reasoning_spec(old(self)@, chunk@).1,
    {
        let mut out: Vec<Span> = Vec::new();
        if !self.is_reasoning {
            if !self.is_line_start {
                emit_newline(&mut out);
            }
            emit_str(&mut out, "Thought:", style_dim_italic());
            emit_newline(&mut out);
            self.is_reasoning = true;
            self.col_count = 0;
            self.is_line_start = true;
        }
        let ghost s0 = self@;
        let ghost o0 = pieces(out@);
        assert(o0 =~= (if !old(self)@.reasoning {
            (if !old(self)@.line_start {
                newline()
            } else {
                Seq::empty()
            }) + piece("Thought:"@, dim_italic()) + newline()
        } else {
            Seq::empty()
        }));
        let cs = crate::text::chars_of(chunk);
        let mut i: usize = 0;
        assert(cs@.take(0) =~= Seq::<char>::empty());
        assert(o0 + Seq::<Piece>::empty() =~= o0);
        while i < cs.len()
            invariant
                self.wf(),
                i <= cs@.len(),
                self@ == reasoning_chars_spec(s0, cs@.take(i as int)).0,
                pieces(out@) == o0 + reasoning_chars_spec(s0, cs@.take(i as int)).1,
            decreases cs.len() - i,
        {
            let ch = cs[i];
            let ghost before = pieces(out@);
            if ch == '\n' {
                emit_newline(&mut out);
                self.col_count = 0;
            } else {
                let mut one = String::new();
                crate::text::push_char(&mut one, ch);
                emit(&mut out, one, style_dim_italic());
                self.col_count = self.col_count.saturating_add(1);
                if self.col_count >= self.max_cols {
                    emit_newline(&mut out);
                    self.col_count = 0;
                }
            }
            proof {
                assert(cs@.take(i + 1).drop_last() =~= cs@.take(i as int));
                assert(cs@.take(i + 1).last() == cs@[i as int]);
                assert(pieces(out@) =~= o0 + reasoning_chars_spec(s0, cs@.take(i + 1)).1);
            }
            i = i + 1;
        }
        assert(cs@.take(cs.len() as int) =~= chunk@);
        out
    }

    /// Ends the stream: shows the pending word, closes an open table and an
    /// open code block, and ends the line.
    pub fn flush_final(&mut self) -> (r: Vec<Span>)
        requires
            old(self).wf(),
        ensures
            final(self).wf(),
            final(self)@ == flush_final_spec(old(self)@).0,
            pieces(r@) == flush_final_spec(old(self)@).1,
    {
        let mut out: Vec<Span> = Vec::new();
        self.flush_pending_word(&mut out);
        let ghost p1 = pieces(out@);
        if self.in_table {
            self.print_table_bottom_border(&mut out);
            self.in_table = false;
            self.table_col_widths = Vec::new();
        }
        let ghost p2 = pieces(out@);
        if self.in_code_block {
            self.in_code_block = false;
            let line = fence_close(self.max_cols);
            emit(&mut out, string_of(&line), style_cyan());
            emit_newline(&mut out);
        }
        let ghost p3 = pieces(out@);
        emit_newline(&mut out);
        proof {
            assert(pieces(out@) =~= p1 + p2.skip(p1.len() as int) + p3.skip(p2.len() as int)
                + newline());
        }
        out
    }
}

/// The widest a column may be for a row of `n` cells.
fn max_width(max_cols: usize, n: usize) -> (r: usize)
    requires
        max_cols <= 0xffff,
        n > 0,
    ensures
        r == max_col_width(max_cols as nat, n as nat),
        r <= 0xffff,
{
    let overhead: u128 = 3 * (n as u128) + 1;
    let avail: u128 = if (max_cols as u128) > overhead {
        max_cols as u128 - overhead
    } else {
        0
    };
    let q: u128 = avail / (n as u128);
    assert(q <= avail) by (nonlinear_arith)
        requires
            q == avail / (n as u128),
            n > 0,
    ;
    if q >= 4 {
        q as usize
    } else {
        4
    }
}


proof fn lemma_chars_split(st: MdView, a: Seq<char>, b: Seq<char>)
    ensures
        chars_spec(st, a + b) == (
            chars_spec(chars_spec(st, a).0, b).0,
            chars_spec(st, a).1 + chars_spec(chars_spec(st, a).0, b).1,
        ),
    decreases b.len(),
{
    if b.len() == 0 {
        assert(a + b =~= a);
        assert(chars_spec(st, a).1 + Seq::<Piece>::empty() =~= chars_spec(st, a).1);
    } else {
        lemma_chars_split(st, a, b.drop_last());
        assert((a + b).drop_last() =~= a + b.drop_last());
        assert((a + b).last() == b.last());
        let m = chars_spec(st, a);
        let (s1, o1) = chars_spec(m.0, b.drop_last());
        let (s2, o2) = char_spec(s1, b.last());
        assert(m.1 + o1 + o2 =~= m.1 + (o1 + o2));
    }
}

proof fn lemma_reasoning_chars_split(st: MdView, a: Seq<char>, b: Seq<char>)
    ensures
        reasoning_chars_spec(st, a + b) == (
            reasoning_chars_spec(reasoning_chars_spec(st, a).0, b).0,
            reasoning_chars_spec(st, a).1 + reasoning_chars_spec(
                reasoning_chars_spec(st, a).0,
                b,
            ).1,
        ),
    decreases b.len(),
{
    if b.len() == 0 {
        assert(a + b =~= a);
        assert(reasoning_chars_spec(st, a).1 + Seq::<Piece>::empty() =~= reasoning_chars_spec(
            st,
            a,
        ).1);
    } else {
        lemma_reasoning_chars_split(st, a, b.drop_last());
        assert((a + b).drop_last() =~= a + b.drop_last());
        assert((a + b).last() == b.last());
        let m = reasoning_chars_spec(st, a);
        let (s1, o1) = reasoning_chars_spec(m.0, b.drop_last());
        let (s2, o2) = reasoning_char_spec(s1, b.last());
        assert(m.1 + o1 + o2 =~= m.1 + (o1 + o2));
    }
}

proof fn lemma_inline_keeps_mode(st: MdView, w: Seq<char>, i: int, seg: Seq<char>)
    ensures
        inline_from(st, w, i, seg).0.reasoning == st.reasoning,
        inline_from(st, w, i, seg).0.in_code_block == st.in_code_block,
    decreases w.len() + 1 - i,
{
    if i < 0 || i >= w.len() {
    } else {
        let ch = w[i];
        let s1 = flush_segment_spec(st, seg).0;
        if ch == '`' {
            lemma_inline_keeps_mode(MdView { inline_code: !s1.inline_code, ..s1 }, w, i + 1, Seq::empty());
        } else if st.inline_code {
            lemma_inline_keeps_mode(st, w, i + 1, seg.push(ch));
        } else if ch == '*' || ch == '_' {
            if i + 1 < w.len() && w[i + 1] == ch {
                lemma_inline_keeps_mode(MdView { bold: !s1.bold, ..s1 }, w, i + 2, Seq::empty());
            } else {
                lemma_inline_keeps_mode(MdView { italic: !s1.italic, ..s1 }, w, i + 1, Seq::empty());
            }
        } else if ch == '~' {
            if i + 1 < w.len() && w[i + 1] == '~' {
                lemma_inline_keeps_mode(
                    MdView { strikethrough: !s1.strikethrough, ..s1 },
                    w,
                    i + 2,
                    Seq::empty(),
                );
            } else {
                lemma_inline_keeps_mode(st, w, i + 2, seg.push('~'));
            }
        } else {
            lemma_inline_keeps_mode(st, w, i + 1, seg.push(ch));
        }
    }
}

proof fn lemma_row_keeps_mode(st: MdView, cells: Seq<Seq<char>>, mcw: nat, i: int)
    ensures
        row_from(st, cells, mcw, i).0.reasoning == st.reasoning,
        row_from(st, cells, mcw, i).0.in_code_block == st.in_code_block,
    decreases cells.len() - i,
{
    if i < 0 || i >= cells.len() {
    } else {
        let target = cell_target(st.widths, i, mcw);
        let (text, vis) = cell_display(cells[i], target);
        lemma_inline_keeps_mode(st, text, 0, Seq::empty());
        let s1 = inline_from(st, text, 0, Seq::empty()).0;
        lemma_row_keeps_mode(s1, cells, mcw, i + 1);
    }
}

proof fn lemma_word_keeps_mode(st: MdView)
    ensures
        flush_word_spec(st).0.reasoning == st.reasoning,
{
    if st.pending.len() == 0 || is_table_line_spec(st) {
    } else {
        let s0 = MdView { pending: Seq::empty(), ..st };
        let s1 = word_start_spec(s0).0;
        let s2 = word_gap_spec(s1, visible_len(st.pending, s1.in_code_block)).0;
        lemma_inline_keeps_mode(s2, st.pending, 0, Seq::empty());
    }
}

proof fn lemma_line_break_keeps_mode(st: MdView)
    ensures
        line_break_spec(st).0.reasoning == st.reasoning,
{
    let t = trim(st.line);
    let s1 = if st.in_table && !starts_bar(t) {
        MdView { in_table: false, widths: Seq::empty(), ..st }
    } else {
        st
    };
    if !s1.in_code_block && (starts_bar(t) || (s1.in_table && t.contains('|'))) {
        let cells = row_cells(t);
        if split_bar(t).len() < 2 || cells.len() == 0 {
        } else {
            let n = cells.len();
            let mcw = max_col_width(s1.max_cols, n);
            let w2 = grow_widths(s1.widths, cells, n, mcw);
            let sa = MdView { widths: w2, ..s1 };
            let sb = if !sa.in_table {
                MdView { in_table: true, ..sa }
            } else {
                sa
            };
            lemma_row_keeps_mode(sb, cells, mcw, 0);
        }
    }
}

proof fn lemma_char_keeps_mode(st: MdView, ch: char)
    ensures
        char_spec(st, ch).0.reasoning == st.reasoning,
{
    lemma_word_keeps_mode(st);
    let t = trim(st.line);
    let special = is_rule(t) || is_fence(t) || (!st.in_code_block && starts_bar(t));
    let s1 = if special {
        MdView { pending: Seq::empty(), ..st }
    } else {
        flush_word_spec(st).0
    };
    lemma_line_break_keeps_mode(s1);
    if ch != '\n' && ch != ' ' {
        lemma_word_keeps_mode(MdView { pending: st.pending.push(ch), line: st.line.push(ch), ..st });
    }
}

proof fn lemma_chars_keep_mode(st: MdView, s: Seq<char>)
    ensures
        chars_spec(st, s).0.reasoning == st.reasoning,
    decreases s.len(),
{
    if s.len() > 0 {
        lemma_chars_keep_mode(st, s.drop_last());
        lemma_char_keeps_mode(chars_spec(st, s.drop_last()).0, s.last());
    }
}

proof fn lemma_reasoning_chars_keep_mode(st: MdView, s: Seq<char>)
    ensures
        reasoning_chars_spec(st, s).0.reasoning == st.reasoning,
    decreases s.len(),
{
    if s.len() > 0 {
        lemma_reasoning_chars_keep_mode(st, s.drop_last());
    }
}

/// Splitting answer text into chunks does not change what is shown: writing
/// `a` and then `b` leaves the same state and shows the same output, in
/// order, as writing `a + b` at once.
pub proof fn law_answer_chunks_compose(st: MdView, a: Seq<char>, b: Seq<char>)
    ensures
        ({
            let (s1, o1) = write_chunk_spec(st, a);
            let (s2, o2) = write_chunk_spec(s1, b);
            (s2, o1 + o2) == write_chunk_spec(st, a + b)
        }),
{
    let s0 = if st.reasoning {
        MdView { col: 0, line_start: true, reasoning: false, ..st }
    } else {
        st
    };
    lemma_chars_keep_mode(s0, a);
    lemma_chars_split(s0, a, b);
    let (s1, o1) = write_chunk_spec(st, a);
    let o0 = write_chunk_spec(st, Seq::<char>::empty()).1;
    assert(write_chunk_spec(s1, b) == chars_spec(s1, b)) by {
        assert(Seq::<Piece>::empty() + chars_spec(s1, b).1 =~= chars_spec(s1, b).1);
    }
    assert(o1 + chars_spec(s1, b).1 =~= write_chunk_spec(st, a + b).1);
}

/// Splitting reasoning into chunks does not change what is shown: writing
/// `a` and then `b` as reasoning is the same as writing `a + b` at once.
pub proof fn law_reasoning_chunks_compose(st: MdView, a: Seq<char>, b: Seq<char>)
    ensures
        ({
            let (s1, o1) = write_reasoning_spec(st, a);
            let (s2, o2) = write_reasoning_spec(s1, b);
            (s2, o1 + o2) == write_reasoning_spec(st, a + b)
        }),
{
    let s0 = if !st.reasoning {
        MdView { reasoning: true, col: 0, line_start: true, ..st }
    } else {
        st
    };
    lemma_reasoning_chars_keep_mode(s0, a);
    lemma_reasoning_chars_split(s0, a, b);
    let (s1, o1) = write_reasoning_spec(st, a);
    assert(write_reasoning_spec(s1, b) == reasoning_chars_spec(s1, b)) by {
        assert(Seq::<Piece>::empty() + reasoning_chars_spec(s1, b).1 =~= reasoning_chars_spec(
            s1,
            b,
        ).1);
    }
    assert(o1 + reasoning_chars_spec(s1, b).1 =~= write_reasoning_spec(st, a + b).1);
}

/// At the end of the stream nothing is left open: neither a code block nor a
/// table.
pub proof fn law_flush_closes_everything(st: MdView)
    ensures
        !flush_final_spec(st).0.in_code_block,
        !flush_final_spec(st).0.in_table,
{
}

/// A chunk of answer text that ends in a line feed leaves the renderer at
/// the start of a fresh line: nothing of the line is kept, no word is
/// pending, the column is zero, the line is plain, and reasoning is over.
#[verifier::spinoff_prover]
pub proof fn law_chunk_ending_in_newline_resets_line(st: MdView, s: Seq<char>)
    requires
        s.len() > 0,
        s.last() == '\n',
    ensures
        ({
            let v = write_chunk_spec(st, s).0;
            &&& v.line_start
            &&& v.line.len() == 0
            &&& v.pending.len() == 0
            &&& v.col == 0
            &&& v.line_type == LineType::Normal
            &&& !v.reasoning
        }),
{
    let s0 = if st.reasoning {
        MdView { col: 0, line_start: true, reasoning: false, ..st }
    } else {
        st
    };
    lemma_chars_keep_mode(s0, s);
    let p = chars_spec(s0, s.drop_last()).0;
    let t = trim(p.line);
    let special = is_rule(t) || is_fence(t) || (!p.in_code_block && starts_bar(t));
    let s1 = if special {
        MdView { pending: Seq::empty(), ..p }
    } else {
        flush_word_spec(p).0
    };
    law_line_break_resets_and_toggles_code(s1);
    assert(chars_spec(s0, s).0 == char_spec(p, '\n').0);
    assert(char_spec(p, '\n').0 == line_break_spec(s1).0);
}

/// At the start of a line outside code, a word of one to six `#` is hidden:
/// nothing is shown, the line becomes a header of level `min(k, 4)`, and the
/// line is no longer at its start.
pub proof fn law_hashes_open_a_header(st: MdView, k: nat)
    requires
        1 <= k <= 6,
        st.line_start,
        !st.in_code_block,
        !is_table_line_spec(st),
        st.pending == repeat('#', k),
    ensures
        flush_word_spec(st) == (
            MdView {
                line_type: LineType::Header(if k < 4 {
                    k as u8
                } else {
                    4
                }),
                line_start: false,
                pending: Seq::empty(),
                ..st
            },
            Seq::<Piece>::empty(),
        ),
{
    reveal_strlit("#");
    reveal_strlit("##");
    reveal_strlit("###");
    reveal_strlit("####");
    reveal_strlit("#####");
    reveal_strlit("######");
    if k == 1 {
        assert(repeat('#', k) =~= "#"@);
    } else if k == 2 {
        assert(repeat('#', k) =~= "##"@);
    } else if k == 3 {
        assert(repeat('#', k) =~= "###"@);
    } else if k == 4 {
        assert(repeat('#', k) =~= "####"@);
    } else if k == 5 {
        assert(repeat('#', k) =~= "#####"@);
    } else {
        assert(repeat('#', k) =~= "######"@);
    }
}

/// A line break starts a fresh line, and toggles the code block exactly on
/// a fence line that is not a table row; a table that the line does not
/// continue is closed.
pub proof fn law_line_break_resets_and_toggles_code(st: MdView)
    ensures
        ({
            let t = trim(st.line);
            let row = !st.in_code_block && starts_bar(t);
            let v = line_break_spec(st).0;
            &&& v.line.len() == 0
            &&& v.pending.len() == 0
            &&& v.line_start
            &&& v.col == 0
            &&& v.line_type == LineType::Normal
            &&& v.in_code_block == (st.in_code_block != (is_fence(t) && !row))
            &&& (st.in_table && !starts_bar(t) ==> !v.in_table && v.widths.len() == 0)
        }),
{
    let t = trim(st.line);
    let s1 = if st.in_table && !starts_bar(t) {
        MdView { in_table: false, widths: Seq::empty(), ..st }
    } else {
        st
    };
    if !s1.in_code_block && (starts_bar(t) || (s1.in_table && t.contains('|'))) {
        let cells = row_cells(t);
        if split_bar(t).len() < 2 || cells.len() == 0 {
        } else {
            let n = cells.len();
            let mcw = max_col_width(s1.max_cols, n);
            let w2 = grow_widths(s1.widths, cells, n, mcw);
            let sa = MdView { widths: w2, ..s1 };
            let sb = if !sa.in_table {
                MdView { in_table: true, ..sa }
            } else {
                sa
            };
            lemma_row_keeps_mode(sb, cells, mcw, 0);
        }
    }
}

proof fn lemma_grow_widths(ws: Seq<usize>, cells: Seq<Seq<char>>, k: nat, mcw: nat)
    requires
        k <= cells.len(),
        4 <= mcw <= 0xffff,
    ensures
        ({
            let w = grow_widths(ws, cells, k, mcw);
            &&& w.len() == max_nat(ws.len(), k)
            &&& forall|i: int|
                0 <= i < k ==> min_nat(visible_len(cells[i], false), mcw) <= #[trigger] w[i]
                    <= mcw && 4 <= w[i]
            &&& forall|i: int| k <= i < ws.len() ==> #[trigger] w[i] == ws[i]
        }),
    decreases k,
{
    if k > 0 {
        lemma_grow_widths(ws, cells, (k - 1) as nat, mcw);
    }
}

/// A table row either is a separator, which keeps the column widths, or
/// widens the columns: there are as many widths as the more of the known
/// columns and the row's cells, each of the row's columns is at least as
/// wide as its cell (up to the column cap) and between 4 and the cap, and
/// the columns past the row stay as they were. Either way the table is open
/// afterwards.
pub proof fn law_table_row_widths(st: MdView, t: Seq<char>)
    requires
        st.max_cols <= 0xffff,
        split_bar(t).len() >= 2,
        row_cells(t).len() > 0,
    ensures
        ({
            let cells = row_cells(t);
            let n = cells.len();
            let mcw = max_col_width(st.max_cols, n);
            let v = table_row_spec(st, t).0;
            &&& (forall|k: int| 0 <= k < n ==> is_separator_cell(#[trigger] cells[k])) ==> v.widths
                == st.widths && v.in_table
            &&& !(forall|k: int| 0 <= k < n ==> is_separator_cell(#[trigger] cells[k])) ==> {
                &&& v.in_table
                &&& v.widths.len() == max_nat(st.widths.len(), n)
                &&& forall|i: int|
                    0 <= i < n ==> min_nat(visible_len(cells[i], false), mcw) <= #[trigger] v.widths[i]
                        <= mcw && 4 <= v.widths[i]
                &&& forall|i: int| n <= i < st.widths.len() ==> #[trigger] v.widths[i] == st.widths[i]
            }
        }),
{
    let cells = row_cells(t);
    let n = cells.len();
    let mcw = max_col_width(st.max_cols, n);
    assert(mcw <= 0xffff) by {
        assert(sat_sub(st.max_cols, 3 * n + 1) / n <= sat_sub(st.max_cols, 3 * n + 1)) by (nonlinear_arith)
            requires
                n > 0,
        ;
    }
    if !(forall|k: int| 0 <= k < n ==> is_separator_cell(#[trigger] cells[k])) {
        lemma_grow_widths(st.widths, cells, n, mcw);
        let w2 = grow_widths(st.widths, cells, n, mcw);
        let s1 = MdView { widths: w2, ..st };
        let s2 = if !s1.in_table {
            MdView { in_table: true, ..s1 }
        } else {
            s1
        };
        lemma_row_widths_kept(s2, cells, mcw, 0);
    }
}

proof fn lemma_inline_keeps_table(st: MdView, w: Seq<char>, i: int, seg: Seq<char>)
    ensures
        inline_from(st, w, i, seg).0.widths == st.widths,
        inline_from(st, w, i, seg).0.in_table == st.in_table,
    decreases w.len() + 1 - i,
{
    if i < 0 || i >= w.len() {
    } else {
        let ch = w[i];
        let s1 = flush_segment_spec(st, seg).0;
        if ch == '`' {
            lemma_inline_keeps_table(MdView { inline_code: !s1.inline_code, ..s1 }, w, i + 1, Seq::empty());
        } else if st.inline_code {
            lemma_inline_keeps_table(st, w, i + 1, seg.push(ch));
        } else if ch == '*' || ch == '_' {
            if i + 1 < w.len() && w[i + 1] == ch {
                lemma_inline_keeps_table(MdView { bold: !s1.bold, ..s1 }, w, i + 2, Seq::empty());
            } else {
                lemma_inline_keeps_table(MdView { italic: !s1.italic, ..s1 }, w, i + 1, Seq::empty());
            }
        } else if ch == '~' {
            if i + 1 < w.len() && w[i + 1] == '~' {
                lemma_inline_keeps_table(
                    MdView { strikethrough: !s1.strikethrough, ..s1 },
                    w,
                    i + 2,
                    Seq::empty(),
                );
            } else {
                lemma_inline_keeps_table(st, w, i + 2, seg.push('~'));
            }
        } else {
            lemma_inline_keeps_table(st, w, i + 1, seg.push(ch));
        }
    }
}

proof fn lemma_row_widths_kept(st: MdView, cells: Seq<Seq<char>>, mcw: nat, i: int)
    ensures
        row_from(st, cells, mcw, i).0.widths == st.widths,
        row_from(st, cells, mcw, i).0.in_table == st.in_table,
    decreases cells.len() - i,
{
    if i < 0 || i >= cells.len() {
    } else {
        let target = cell_target(st.widths, i, mcw);
        let (text, vis) = cell_display(cells[i], target);
        lemma_inline_keeps_table(st, text, 0, Seq::empty());
        let s1 = inline_from(st, text, 0, Seq::empty()).0;
        lemma_row_widths_kept(s1, cells, mcw, i + 1);
    }
}

/// Whether a character has an inline Markdown meaning.
pub open spec fn inline_mark(c: char) -> bool {
    c == '`' || c == '*' || c == '_' || c == '~'
}

proof fn lemma_plain_run(st: MdView, w: Seq<char>, i: int, j: int, seg: Seq<char>)
    requires
        0 <= i <= j <= w.len(),
        forall|k: int| i <= k < j ==> !inline_mark(#[trigger] w[k]),
    ensures
        inline_from(st, w, i, seg) == inline_from(st, w, j, seg + w.subrange(i, j)),
    decreases j - i,
{
    if i == j {
        assert(seg + w.subrange(i, j) =~= seg);
    } else {
        lemma_plain_run(st, w, i + 1, j, seg.push(w[i]));
        assert(seg.push(w[i]) + w.subrange(i + 1, j) =~= seg + w.subrange(i, j));
    }
}

proof fn lemma_marked_word(st: MdView, w: Seq<char>, m: Seq<char>)
    requires
        m == "**"@ || m == "*"@ || m == "~~"@,
        !st.inline_code,
        w.len() > 0,
        forall|k: int| 0 <= k < w.len() ==> !inline_mark(#[trigger] w[k]),
    ensures
        ({
            let s1 = if m == "**"@ {
                MdView { bold: !st.bold, ..st }
            } else if m == "*"@ {
                MdView { italic: !st.italic, ..st }
            } else {
                MdView { strikethrough: !st.strikethrough, ..st }
            };
            inline_from(st, m + w + m, 0, Seq::empty()).1 == piece(w, segment_style(s1))
        }),
{
    reveal_strlit("**");
    reveal_strlit("*");
    reveal_strlit("~~");
    let big = m + w + m;
    let n = m.len() as int;
    let mc = m[0];
    let s1 = if m == "**"@ {
        MdView { bold: !st.bold, ..st }
    } else if m == "*"@ {
        MdView { italic: !st.italic, ..st }
    } else {
        MdView { strikethrough: !st.strikethrough, ..st }
    };
    assert(big.len() == 2 * n + w.len());
    assert(m[0] == mc);
    if n == 2 {
        assert(m[1] == mc);
    }
    assert forall|k: int| 0 <= k < n implies #[trigger] m[k] == mc && big[k] == mc && big[n
        + w.len() + k] == mc by {
        assert(big[k] == m[k]);
        assert(big[n + w.len() + k] == m[k]);
    }
    assert forall|k: int| n <= k < n + w.len() implies !inline_mark(#[trigger] big[k]) by {
        assert(big[k] == w[k - n]);
    }
    assert(big[n] == w[0]);
    assert(flush_segment_spec(st, Seq::empty()) == (st, Seq::<Piece>::empty()));
    lemma_plain_run(s1, big, n, n + w.len(), Seq::empty());
    assert(Seq::<char>::empty() + big.subrange(n, n + w.len()) =~= w);
    let s2 = flush_segment_spec(s1, w).0;
    let s3 = if m == "**"@ {
        MdView { bold: !s2.bold, ..s2 }
    } else if m == "*"@ {
        MdView { italic: !s2.italic, ..s2 }
    } else {
        MdView { strikethrough: !s2.strikethrough, ..s2 }
    };
    assert(inline_from(s3, big, 2 * n + w.len(), Seq::empty()).1 =~= Seq::<Piece>::empty());
    assert(Seq::<Piece>::empty() + (piece(w, segment_style(s1)) + Seq::<Piece>::empty())
        =~= piece(w, segment_style(s1)));
    assert(piece(w, segment_style(s1)) + Seq::<Piece>::empty() =~= piece(w, segment_style(s1)));
}

/// Emphasis on a plain line: a word between `**` is shown bold and not
/// italic, a word between single `*` italic and not bold, and a word between
/// `~~` struck through, each in the plain colour and otherwise as before.
pub proof fn law_emphasis_styles(st: MdView, w: Seq<char>)
    requires
        st.line_type == LineType::Normal,
        !st.inline_code,
        !st.bold,
        !st.italic,
        w.len() > 0,
        forall|k: int| 0 <= k < w.len() ==> !inline_mark(#[trigger] w[k]),
    ensures
        inline_from(st, "**"@ + w + "**"@, 0, Seq::empty()).1 == piece(
            w,
            (Style {
                tone: Tone::Plain,
                bold: true,
                dim: false,
                italic: false,
                strikethrough: st.strikethrough,
            }),
        ),
        inline_from(st, "*"@ + w + "*"@, 0, Seq::empty()).1 == piece(
            w,
            (Style {
                tone: Tone::Plain,
                bold: false,
                dim: false,
                italic: true,
                strikethrough: st.strikethrough,
            }),
        ),
        inline_from(st, "~~"@ + w + "~~"@, 0, Seq::empty()).1 == piece(
            w,
            (Style {
                tone: Tone::Plain,
                bold: false,
                dim: false,
                italic: false,
                strikethrough: !st.strikethrough,
            }),
        ),
{
    reveal_strlit("**");
    reveal_strlit("*");
    reveal_strlit("~~");
    assert("*"@.len() != "**"@.len());
    assert("~~"@ != "**"@ && "~~"@ != "*"@) by {
        assert("~~"@[0] != "**"@[0]);
        assert("~~"@.len() != "*"@.len());
    }
    lemma_marked_word(st, w, "**"@);
    lemma_marked_word(st, w, "*"@);
    lemma_marked_word(st, w, "~~"@);
}

} // verus!
