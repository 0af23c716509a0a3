//! Styled output of the Markdown renderer: text pieces with a terminal style,
//! the visible width of inline Markdown and the truncation of table cells.
use vstd::prelude::*;

use crate::text::{chars_of, push_char, string_of};

verus! {

/// The colour of a piece of output.
#[derive(Debug, Clone, Copy, PartialEq, Eq, Structural)]
pub enum Tone {
    Plain,
    Cyan,
    Magenta,
    Yellow,
    Blue,
}

/// The terminal style of a piece of output.
#[derive(Debug, Clone, Copy, PartialEq, Eq, Structural)]
pub struct Style {
    pub tone: Tone,
    pub bold: bool,
    pub dim: bool,
    pub italic: bool,
    pub strikethrough: bool,
}

/// A style of the given colour and attributes.
pub open spec fn style_of(tone: Tone, bold: bool, dim: bool, italic: bool, strikethrough: bool) -> Style {
    Style { tone, bold, dim, italic, strikethrough }
}

/// A style of the given colour and attributes.
pub fn make_style(tone: Tone, bold: bool, dim: bool, italic: bool, strikethrough: bool) -> (r: Style)
    ensures
        r == style_of(tone, bold, dim, italic, strikethrough),
{
    Style { tone, bold, dim, italic, strikethrough }
}

/// Unstyled output.
pub open spec fn plain() -> Style {
    style_of(Tone::Plain, false, false, false, false)
}

/// A piece of text to print, with its style.
#[derive(Debug, Clone)]
pub struct Span {
    pub text: String,
    pub style: Style,
}

/// What a [`Span`] holds, for contracts.
pub struct Piece {
    pub text: Seq<char>,
    pub style: Style,
}

/// The output of one piece.
pub open spec fn piece(text: Seq<char>, style: Style) -> Seq<Piece> {
    seq![Piece { text, style }]
}

/// A line break.
pub open spec fn newline() -> Seq<Piece> {
    piece(seq!['\n'], plain())
}

/// What the spans hold, in order.
pub open spec fn pieces(spans: Seq<Span>) -> Seq<Piece> {
    spans.map_values(|s: Span| Piece { text: s.text@, style: s.style })
}

/// `n` copies of `c`.
pub open spec fn repeat(c: char, n: nat) -> Seq<char> {
    Seq::new(n, |_i: int| c)
}

/// Appends a piece to the output.
pub fn emit(out: &mut Vec<Span>, text: String, style: Style)
    ensures
        pieces(final(out)@) == pieces(old(out)@) + piece(text@, style),
{
    let ghost before = out@;
    out.push(Span { text, style });
    assert(pieces(out@) =~= pieces(before) + piece(text@, style));
}

/// Appends a piece holding the characters of a literal.
pub fn emit_str(out: &mut Vec<Span>, text: &str, style: Style)
    ensures
        pieces(final(out)@) == pieces(old(out)@) + piece(text@, style),
{
    let s = string_of(&chars_of(text));
    emit(out, s, style);
}

/// Appends a line break.
pub fn emit_newline(out: &mut Vec<Span>)
    ensures
        pieces(final(out)@) == pieces(old(out)@) + newline(),
{
    let mut s = String::new();
    push_char(&mut s, '\n');
    emit(out, s, make_style(Tone::Plain, false, false, false, false));
}

/// Appends `n` copies of `c` to a character vector.
pub fn push_repeat(v: &mut Vec<char>, c: char, n: usize)
    ensures
        final(v)@ == old(v)@ + repeat(c, n as nat),
{
    let ghost start = v@;
    let mut i: usize = 0;
    while i < n
        invariant
            i <= n,
            v@ == start + repeat(c, i as nat),
        decreases n - i,
    {
        v.push(c);
        i = i + 1;
        assert(repeat(c, i as nat) =~= repeat(c, (i - 1) as nat).push(c));
    }
}

/// `s` with every non-overlapping pair `cc`, taken from the left, removed, as
/// `str::replace` with the two-character pattern and an empty replacement.
pub open spec fn drop_pairs(s: Seq<char>, c: char) -> Seq<char>
    decreases s.len(),
{
    if s.len() == 0 {
        s
    } else if s.len() >= 2 && s[0] == c && s[1] == c {
        drop_pairs(s.skip(2), c)
    } else {
        seq![s[0]] + drop_pairs(s.skip(1), c)
    }
}

/// Whether a character is inline emphasis or code markup.
pub open spec fn is_mark(c: char) -> bool {
    c == '*' || c == '_' || c == '`'
}

/// `s` without `*`, `_` and backticks.
pub open spec fn drop_marks(s: Seq<char>) -> Seq<char>
    decreases s.len(),
{
    if s.len() == 0 {
        s
    } else if is_mark(s[0]) {
        drop_marks(s.skip(1))
    } else {
        seq![s[0]] + drop_marks(s.skip(1))
    }
}

/// The characters that inline Markdown shows: all of them inside a code
/// block; elsewhere, the text without `**`, `__` and `~~` pairs and then
/// without single `*`, `_` and backticks.
pub open spec fn visible_text(s: Seq<char>, in_code_block: bool) -> Seq<char> {
    if in_code_block {
        s
    } else {
        drop_marks(drop_pairs(drop_pairs(drop_pairs(s, '*'), '_'), '~'))
    }
}

/// The number of characters that inline Markdown shows.
pub open spec fn visible_len(s: Seq<char>, in_code_block: bool) -> nat {
    visible_text(s, in_code_block).len()
}

fn drop_pairs_chars(s: &Vec<char>, c: char) -> (r: Vec<char>)
    ensures
        r@ == drop_pairs(s@, c),
{
    let n = s.len();
    let mut out: Vec<char> = Vec::new();
    let mut i: usize = 0;
    assert(s@.skip(0) =~= s@);
    while i < n
        invariant
            n == s.len(),
            i <= n,
            drop_pairs(s@, c) == out@ + drop_pairs(s@.skip(i as int), c),
        decreases n - i,
    {
        let ghost rest = s@.skip(i as int);
        if i + 1 < n && s[i] == c && s[i + 1] == c {
            assert(rest.skip(2) =~= s@.skip(i + 2));
            i = i + 2;
        } else {
            assert(rest.skip(1) =~= s@.skip(i + 1));
            assert(drop_pairs(rest, c) == seq![s@[i as int]] + drop_pairs(rest.skip(1), c));
            out.push(s[i]);
            assert(drop_pairs(s@, c) =~= out@ + drop_pairs(s@.skip(i + 1), c));
            i = i + 1;
        }
    }
    assert(out@ + drop_pairs(s@.skip(n as int), c) =~= out@);
    out
}

fn drop_marks_chars(s: &Vec<char>) -> (r: Vec<char>)
    ensures
        r@ == drop_marks(s@),
{
    let n = s.len();
    let mut out: Vec<char> = Vec::new();
    let mut i: usize = 0;
    assert(s@.skip(0) =~= s@);
    while i < n
        invariant
            n == s.len(),
            i <= n,
            drop_marks(s@) == out@ + drop_marks(s@.skip(i as int)),
        decreases n - i,
    {
        let ghost rest = s@.skip(i as int);
        assert(rest.skip(1) =~= s@.skip(i + 1));
        let c = s[i];
        if !(c == '*' || c == '_' || c == '`') {
            out.push(c);
            assert(drop_marks(s@) =~= out@ + drop_marks(s@.skip(i + 1)));
        }
        i = i + 1;
    }
    assert(out@ + drop_marks(s@.skip(n as int)) =~= out@);
    out
}

/// The characters of `s` that inline Markdown shows.
pub fn visible_chars(s: &Vec<char>, in_code_block: bool) -> (r: Vec<char>)
    ensures
        r@ == visible_text(s@, in_code_block),
{
    if in_code_block {
        let mut c: Vec<char> = Vec::new();
        let mut i: usize = 0;
        while i < s.len()
            invariant
                i <= s.len(),
                c@ == s@.take(i as int),
            decreases s.len() - i,
        {
            c.push(s[i]);
            i = i + 1;
            assert(c@ =~= s@.take(i as int));
        }
        assert(s@.take(s.len() as int) =~= s@);
        c
    } else {
        let a = drop_pairs_chars(s, '*');
        let b = drop_pairs_chars(&a, '_');
        let d = drop_pairs_chars(&b, '~');
        drop_marks_chars(&d)
    }
}

/// The number of characters that a word of inline Markdown shows: inside a
/// code block every character counts; elsewhere emphasis, strike-through and
/// code markup do not.
pub fn get_visible_len(word: &str, in_code_block: bool) -> (r: usize)
    ensures
        r == visible_len(word@, in_code_block),
{
    let cs = chars_of(word);
    let v = visible_chars(&cs, in_code_block);
    v.len()
}

/// Whether a character is kept whatever the width when a cell is cut.
pub open spec fn kept_when_cut(c: char) -> bool {
    c == '*' || c == '_' || c == '`' || c == '~'
}

/// The start of `s` with at most `budget` characters that are not markup;
/// markup characters are kept up to the first shown character that no longer fits.
pub open spec fn cut_cell(s: Seq<char>, budget: nat) -> Seq<char>
    decreases s.len(),
{
    if s.len() == 0 {
        s
    } else if kept_when_cut(s[0]) {
        seq![s[0]] + cut_cell(s.skip(1), budget)
    } else if budget > 0 {
        seq![s[0]] + cut_cell(s.skip(1), (budget - 1) as nat)
    } else {
        Seq::empty()
    }
}

/// A cell's text as a table column of the given width shows it, with its
/// visible width: the cell itself where it fits; else an ellipsis alone for
/// widths under two; else the cell cut to one character less than the width,
/// followed by an ellipsis.
pub open spec fn cell_display(cell: Seq<char>, width: nat) -> (Seq<char>, nat) {
    if visible_len(cell, false) <= width {
        (cell, visible_len(cell, false))
    } else if width <= 1 {
        (seq!['…'], 1)
    } else {
        let t = cut_cell(cell, (width - 1) as nat).push('…');
        (t, visible_len(t, false))
    }
}

/// A cell's text fitted to a table column of the given width, with its visible width.
pub fn format_cell_text(cell: &str, max_cell_width: usize) -> (r: (String, usize))
    ensures
        r.0@ == cell_display(cell@, max_cell_width as nat).0,
        r.1 == cell_display(cell@, max_cell_width as nat).1,
{
    let cs = chars_of(cell);
    let (t, v) = fit_cell(&cs, max_cell_width);
    (string_of(&t), v)
}

/// [`format_cell_text`] on characters.
pub fn fit_cell(cs: &Vec<char>, max_cell_width: usize) -> (r: (Vec<char>, usize))
    ensures
        r.0@ == cell_display(cs@, max_cell_width as nat).0,
        r.1 == cell_display(cs@, max_cell_width as nat).1,
{
    let vis = visible_chars(cs, false).len();
    if vis <= max_cell_width {
        let mut c: Vec<char> = Vec::new();
        let mut i: usize = 0;
        while i < cs.len()
            invariant
                i <= cs.len(),
                c@ == cs@.take(i as int),
            decreases cs.len() - i,
        {
            c.push(cs[i]);
            i = i + 1;
            assert(c@ =~= cs@.take(i as int));
        }
        assert(cs@.take(cs.len() as int) =~= cs@);
        return (c, vis);
    }
    if max_cell_width <= 1 {
        let mut e: Vec<char> = Vec::new();
        e.push('…');
        assert(e@ =~= seq!['…']);
        return (e, 1);
    }
    let limit = max_cell_width - 1;
    let mut current_vis: usize = 0;
    let mut truncated: Vec<char> = Vec::new();
    let n = cs.len();
    let mut i: usize = 0;
    let mut stop = false;
    assert(cs@.skip(0) =~= cs@);
    while i < n && !stop
        invariant
            n == cs.len(),
            i <= n,
            current_vis <= limit,
            stop ==> cut_cell(cs@, limit as nat) == truncated@,
            !stop ==> 
cut_cell(cs@, limit as nat) == truncated@ + cut_cell(
                cs@.skip(i as int),
                (limit - current_vis) as nat,
            ),
        decreases n - i,
    {
        let ch = cs[i];
        let ghost rest = cs@.skip(i as int);
        assert(rest.skip(1) =~= cs@.skip(i + 1));
        if ch == '*' || ch == '_' || ch == '`' || ch == '~' {
            truncated.push(ch);
            assert(cut_cell(cs@, limit as nat) =~= truncated@ + cut_cell(
                cs@.skip(i + 1),
                (limit - current_vis) as nat,
            ));
        } else {
            if current_vis < limit {
                truncated.push(ch);
                current_vis = current_vis + 1;
                assert(cut_cell(cs@, limit as nat) =~= truncated@ + cut_cell(
                    cs@.skip(i + 1),
                    (limit - current_vis) as nat,
                ));
            } else {
                assert(cut_cell(rest, 0) =~= Seq::<char>::empty());
                assert(cut_cell(cs@, limit as nat) =~= truncated@);
                stop = true;
            }
        }
        i = i + 1;
    }
    if !stop {
        assert(cut_cell(cs@.skip(n as int), (limit - current_vis) as nat) =~= Seq::<char>::empty());
        assert(cut_cell(cs@, limit as nat) =~= truncated@);
    }
    truncated.push('…');
    let final_vis = visible_chars(&truncated, false).len();
    (truncated, final_vis)
}

/// A cell that fits is shown whole; a cut cell ends with an ellipsis.
pub proof fn law_cells_fit_or_end_in_ellipsis(cell: Seq<char>, width: nat)
    ensures
        visible_len(cell, false) <= width ==> cell_display(cell, width).0 == cell,
        visible_len(cell, false) > width ==> cell_display(cell, width).0.last() == '…',
{
}

proof fn lemma_drop_pairs_len(s: Seq<char>, c: char)
    ensures
        drop_pairs(s, c).len() <= s.len(),
    decreases s.len(),
{
    if s.len() == 0 {
    } else if s.len() >= 2 && s[0] == c && s[1] == c {
        lemma_drop_pairs_len(s.skip(2), c);
    } else {
        lemma_drop_pairs_len(s.skip(1), c);
    }
}

proof fn lemma_drop_marks_len(s: Seq<char>)
    ensures
        drop_marks(s).len() <= s.len(),
    decreases s.len(),
{
    if s.len() > 0 {
        lemma_drop_marks_len(s.skip(1));
    }
}

proof fn lemma_drop_marks_cons(x: char, r: Seq<char>)
    ensures
        drop_marks(seq![x] + r) == (if is_mark(x) {
            drop_marks(r)
        } else {
            seq![x] + drop_marks(r)
        }),
{
    assert((seq![x] + r).skip(1) =~= r);
    assert((seq![x] + r)[0] == x);
}

proof fn lemma_drop_marks_concat(a: Seq<char>, b: Seq<char>)
    ensures
        drop_marks(a + b) == drop_marks(a) + drop_marks(b),
    decreases a.len(),
{
    if a.len() == 0 {
        assert(a + b =~= b);
        assert(drop_marks(a) =~= Seq::<char>::empty());
        assert(Seq::<char>::empty() + drop_marks(b) =~= drop_marks(b));
    } else {
        lemma_drop_marks_concat(a.skip(1), b);
        assert((a + b).skip(1) =~= a.skip(1) + b);
        assert((a + b)[0] == a[0]);
        if !is_mark(a[0]) {
            assert(seq![a[0]] + (drop_marks(a.skip(1)) + drop_marks(b)) =~= (seq![a[0]]
                + drop_marks(a.skip(1))) + drop_marks(b));
        }
    }
}

proof fn lemma_marks_after_pairs(s: Seq<char>, c: char)
    requires
        is_mark(c),
    ensures
        drop_marks(drop_pairs(s, c)) == drop_marks(s),
    decreases s.len(),
{
    if s.len() == 0 {
    } else if s.len() >= 2 && s[0] == c && s[1] == c {
        lemma_marks_after_pairs(s.skip(2), c);
        assert(s.skip(1).skip(1) =~= s.skip(2));
        assert(s.skip(1)[0] == s[1]);
        assert(drop_marks(s) == drop_marks(s.skip(1)));
        assert(drop_marks(s.skip(1)) == drop_marks(s.skip(1).skip(1)));
    } else {
        lemma_marks_after_pairs(s.skip(1), c);
        lemma_drop_marks_cons(s[0], drop_pairs(s.skip(1), c));
    }
}

proof fn lemma_drop_pairs_absent(s: Seq<char>, c: char)
    requires
        !s.contains(c),
    ensures
        drop_pairs(s, c) == s,
    decreases s.len(),
{
    if s.len() > 0 {
        assert(s[0] != c);
        assert(!s.skip(1).contains(c)) by {
            if s.skip(1).contains(c) {
                let k = choose|k: int| 0 <= k < s.skip(1).len() && s.skip(1)[k] == c;
                assert(s[k + 1] == c);
            }
        }
        lemma_drop_pairs_absent(s.skip(1), c);
        assert(seq![s[0]] + s.skip(1) =~= s);
    }
}

proof fn lemma_visible_without_tilde(s: Seq<char>)
    requires
        !s.contains('~'),
    ensures
        visible_text(s, false) == drop_marks(s),
{
    let a = drop_pairs(s, '*');
    let b = drop_pairs(a, '_');
    lemma_marks_after_pairs(s, '*');
    lemma_marks_after_pairs(a, '_');
    lemma_drop_pairs_subseq(s, '*', '~');
    lemma_drop_pairs_subseq(a, '_', '~');
    lemma_drop_pairs_absent(b, '~');
}

proof fn lemma_drop_pairs_subseq(s: Seq<char>, c: char, x: char)
    requires
        !s.contains(x),
    ensures
        !drop_pairs(s, c).contains(x),
    decreases s.len(),
{
    if s.len() == 0 {
    } else {
        let rest = if s.len() >= 2 && s[0] == c && s[1] == c {
            s.skip(2)
        } else {
            s.skip(1)
        };
        assert(!rest.contains(x)) by {
            if rest.contains(x) {
                let k = choose|k: int| 0 <= k < rest.len() && rest[k] == x;
                assert(s[k + (s.len() - rest.len())] == x);
            }
        }
        lemma_drop_pairs_subseq(rest, c, x);
        if !(s.len() >= 2 && s[0] == c && s[1] == c) {
            let d = seq![s[0]] + drop_pairs(rest, c);
            assert(!d.contains(x)) by {
                if d.contains(x) {
                    let k = choose|k: int| 0 <= k < d.len() && d[k] == x;
                    if k > 0 {
                        assert(drop_pairs(rest, c)[k - 1] == x);
                    } else {
                        assert(s[0] == x);
                    }
                }
            }
        }
    }
}

/// Inside a code block every character is shown; elsewhere at most every
/// character is, and without `~` exactly those that are not `*`, `_` or a
/// backtick.
pub proof fn law_visible_len_counts(s: Seq<char>)
    ensures
        visible_len(s, true) == s.len(),
        visible_len(s, false) <= s.len(),
        !s.contains('~') ==> visible_text(s, false) == drop_marks(s),
{
    let a = drop_pairs(s, '*');
    let b = drop_pairs(a, '_');
    let c = drop_pairs(b, '~');
    lemma_drop_pairs_len(s, '*');
    lemma_drop_pairs_len(a, '_');
    lemma_drop_pairs_len(b, '~');
    lemma_drop_marks_len(c);
    if !s.contains('~') {
        lemma_visible_without_tilde(s);
    }
}

proof fn lemma_cut_prefix(s: Seq<char>, budget: nat)
    ensures
        cut_cell(s, budget).len() <= s.len(),
        s.take(cut_cell(s, budget).len() as int) == cut_cell(s, budget),
        !s.contains('~') ==> drop_marks(cut_cell(s, budget)).len() <= budget,
    decreases s.len(),
{
    if s.len() == 0 {
    } else {
        let nb: nat = if kept_when_cut(s[0]) {
            budget
        } else if budget > 0 {
            (budget - 1) as nat
        } else {
            0
        };
        lemma_cut_prefix(s.skip(1), nb);
        if !s.contains('~') {
            assert(!s.skip(1).contains('~')) by {
                if s.skip(1).contains('~') {
                    let k = choose|k: int| 0 <= k < s.skip(1).len() && s.skip(1)[k] == '~';
                    assert(s[k + 1] == '~');
                }
            }
            assert(s[0] != '~');
        }
        if kept_when_cut(s[0]) || budget > 0 {
            let r = cut_cell(s.skip(1), nb);
            assert(s.take(r.len() + 1int) =~= seq![s[0]] + s.skip(1).take(r.len() as int));
            lemma_drop_marks_cons(s[0], r);
        }
    }
}

/// A cell is shown with its visible width; a cut cell is the start of the
/// cell followed by an ellipsis, and, without `~` in the cell, it is no
/// wider than the column (or one column, for widths under two).
pub proof fn law_cut_cells_are_prefixes(cell: Seq<char>, width: nat)
    ensures
        cell_display(cell, width).1 == visible_len(cell_display(cell, width).0, false),
        visible_len(cell, false) > width ==> ({
            let t = cell_display(cell, width).0;
            &&& t.len() > 0
            &&& t.last() == '…'
            &&& t.drop_last().len() <= cell.len()
            &&& cell.take(t.drop_last().len() as int) == t.drop_last()
        }),
        visible_len(cell, false) > width && !cell.contains('~') ==> cell_display(cell, width).1
            <= (if width < 1 {
            1
        } else {
            width
        }),
{
    if visible_len(cell, false) > width {
        if width <= 1 {
            let t = seq!['…'];
            assert(!t.contains('~')) by {
                if t.contains('~') {
                    let k = choose|k: int| 0 <= k < t.len() && t[k] == '~';
                }
            }
            lemma_visible_without_tilde(t);
            lemma_drop_marks_cons('…', Seq::empty());
            assert(t.drop_last() =~= Seq::<char>::empty());
            assert(cell.take(0) =~= Seq::<char>::empty());
        } else {
            let p = cut_cell(cell, (width - 1) as nat);
            lemma_cut_prefix(cell, (width - 1) as nat);
            let t = p.push('…');
            assert(t.drop_last() =~= p);
            if !cell.contains('~') {
                assert(!t.contains('~')) by {
                    if t.contains('~') {
                        let k = choose|k: int| 0 <= k < t.len() && t[k] == '~';
                        if k < p.len() {
                            assert(cell.take(p.len() as int)[k] == '~');
                            assert(cell[k] == '~');
                        }
                    }
                }
                lemma_visible_without_tilde(t);
                lemma_drop_marks_concat(p, seq!['…']);
                assert(p + seq!['…'] =~= t);
                lemma_drop_marks_cons('…', Seq::empty());
                assert(seq!['…'] + Seq::<char>::empty() =~= seq!['…']);
            }
        }
    }
}

} // verus!
