//! The editable line of the terminal interface: its text, a cursor counted in
//! characters, the editing and movement operations, and its layout on screen.
use vstd::prelude::*;

use crate::text::{is_space, is_whitespace, string_of};

verus! {

/// Text being typed and the cursor, a character index in `0..=char_count`.
pub struct InputState {
    text: Vec<char>,
    cursor: usize,
}

impl View for InputState {
    type V = (Seq<char>, nat);

    closed spec fn view(&self) -> (Seq<char>, nat) {
        (self.text@, self.cursor as nat)
    }
}

/// From `i`, moves left over whitespace, stopping at index 0.
pub open spec fn skip_space_back(s: Seq<char>, i: int) -> int
    decreases i,
{
    if 0 < i < s.len() && is_space(s[i]) {
        skip_space_back(s, i - 1)
    } else {
        i
    }
}

/// From `i`, moves left while the character before is not whitespace.
pub open spec fn skip_word_back(s: Seq<char>, i: int) -> int
    decreases i,
{
    if 0 < i <= s.len() && !is_space(s[i - 1]) {
        skip_word_back(s, i - 1)
    } else {
        i
    }
}

/// From `i`, moves right over non-whitespace characters.
pub open spec fn skip_word_fwd(s: Seq<char>, i: int) -> int
    decreases s.len() - i,
{
    if 0 <= i < s.len() && !is_space(s[i]) {
        skip_word_fwd(s, i + 1)
    } else {
        i
    }
}

/// From `i`, moves right over whitespace.
pub open spec fn skip_space_fwd(s: Seq<char>, i: int) -> int
    decreases s.len() - i,
{
    if 0 <= i < s.len() && is_space(s[i]) {
        skip_space_fwd(s, i + 1)
    } else {
        i
    }
}

/// The cursor after a move one word to the left: back over whitespace, then
/// back to the start of the word.
pub open spec fn word_left(s: Seq<char>, c: int) -> int {
    if c == 0 {
        0
    } else {
        skip_word_back(s, skip_space_back(s, c - 1))
    }
}

/// The cursor after a move one word to the right: over the rest of the word,
/// then over the whitespace after it.
pub open spec fn word_right(s: Seq<char>, c: int) -> int {
    if c >= s.len() {
        c
    } else {
        skip_space_fwd(s, skip_word_fwd(s, c))
    }
}

/// The width of the text area for a terminal width: two columns less, but at
/// least ten.
pub open spec fn text_columns(term_width: u16) -> nat {
    if term_width >= 12 {
        (term_width - 2) as nat
    } else {
        10
    }
}

/// The layout after the first `n` characters: the display text so far (which
/// begins with the prompt `"❯ "`), the column and the line of the next
/// character. A newline starts a new line; a character that would go past
/// `cols` columns starts one too.
pub open spec fn layout(s: Seq<char>, n: nat, cols: nat) -> (Seq<char>, nat, nat)
    decreases n,
{
    if n == 0 || n > s.len() {
        ("❯ "@, 2, 0)
    } else {
        let (t, c, l) = layout(s, (n - 1) as nat, cols);
        let ch = s[n - 1];
        if ch == '\n' {
            (t.push('\n'), 0, l + 1)
        } else if c >= cols {
            (t.push('\n').push(ch), 1, l + 1)
        } else {
            (t.push(ch), c + 1, l)
        }
    }
}

proof fn lemma_skip_space_back(s: Seq<char>, i: int)
    requires
        0 <= i < s.len(),
    ensures
        0 <= skip_space_back(s, i) <= i,
        skip_space_back(s, i) == 0 || !is_space(s[skip_space_back(s, i)]),
        forall|k: int| skip_space_back(s, i) < k <= i ==> is_space(#[trigger] s[k]),
    decreases i,
{
    if 0 < i < s.len() && is_space(s[i]) {
        lemma_skip_space_back(s, i - 1);
    }
}

proof fn lemma_skip_word_back(s: Seq<char>, i: int)
    requires
        0 <= i <= s.len(),
    ensures
        0 <= skip_word_back(s, i) <= i,
        skip_word_back(s, i) == 0 || is_space(s[skip_word_back(s, i) - 1]),
        forall|k: int| skip_word_back(s, i) <= k < i ==> !is_space(#[trigger] s[k]),
    decreases i,
{
    if 0 < i <= s.len() && !is_space(s[i - 1]) {
        lemma_skip_word_back(s, i - 1);
    }
}

proof fn lemma_skip_word_fwd(s: Seq<char>, i: int)
    requires
        0 <= i <= s.len(),
    ensures
        i <= skip_word_fwd(s, i) <= s.len(),
        skip_word_fwd(s, i) == s.len() || is_space(s[skip_word_fwd(s, i)]),
        forall|k: int| i <= k < skip_word_fwd(s, i) ==> !is_space(#[trigger] s[k]),
    decreases s.len() - i,
{
    if 0 <= i < s.len() && !is_space(s[i]) {
        lemma_skip_word_fwd(s, i + 1);
    }
}

proof fn lemma_skip_space_fwd(s: Seq<char>, i: int)
    requires
        0 <= i <= s.len(),
    ensures
        i <= skip_space_fwd(s, i) <= s.len(),
        skip_space_fwd(s, i) == s.len() || !is_space(s[skip_space_fwd(s, i)]),
        forall|k: int| i <= k < skip_space_fwd(s, i) ==> is_space(#[trigger] s[k]),
    decreases s.len() - i,
{
    if 0 <= i < s.len() && is_space(s[i]) {
        lemma_skip_space_fwd(s, i + 1);
    }
}

impl InputState {
    #[verifier::type_invariant]
    spec fn cursor_in_text(self) -> bool {
        self.cursor <= self.text@.len()
    }

    /// An empty line with the cursor at its start.
    pub fn new() -> (r: InputState)
        ensures
            r@.0 == Seq::<char>::empty(),
            r@.1 == 0,
    {
        InputState { text: Vec::new(), cursor: 0 }
    }

    /// The text typed so far.
    pub fn text(&self) -> (r: String)
        ensures
            r@ == self@.0,
    {
        string_of(&self.text)
    }

    /// The cursor, as a character index.
    pub fn cursor(&self) -> (r: usize)
        ensures
            r == self@.1,
            r <= self@.0.len(),
    {
        proof {
            use_type_invariant(self);
        }
        self.cursor
    }

    /// The number of characters typed.
    pub fn char_count(&self) -> (r: usize)
        ensures
            r == self@.0.len(),
    {
        self.text.len()
    }

    /// Inserts `c` at the cursor and moves the cursor past it.
    pub fn insert_char(&mut self, c: char)
        ensures
            final(self)@.0 == old(self)@.0.insert(old(self)@.1 as int, c),
            final(self)@.1 == old(self)@.1 + 1,
            final(self)@.1 <= final(self)@.0.len(),
    {
        proof {
            use_type_invariant(&*self);
        }
        let at = self.cursor;
        let mut text = self.take_text();
        text.insert(at, c);
        let len = text.len();
        assert(at < len);
        self.text = text;
        self.cursor = at + 1;
    }

    /// Deletes the character before the cursor, if any, and moves the cursor
    /// back over it.
    pub fn delete_prev_char(&mut self)
        ensures
            old(self)@.1 > 0 ==> final(self)@.0 == old(self)@.0.remove(old(self)@.1 - 1)
                && final(self)@.1 == old(self)@.1 - 1,
            old(self)@.1 == 0 ==> final(self)@ == old(self)@,
            final(self)@.1 <= final(self)@.0.len(),
    {
        proof {
            use_type_invariant(&*self);
        }
        if self.cursor > 0 {
            let prev_idx = self.cursor - 1;
            let mut text = self.take_text();
            text.remove(prev_idx);
            self.text = text;
            self.cursor = prev_idx;
        }
    }

    /// Deletes the character at the cursor, if any; the cursor stays.
    pub fn delete_next_char(&mut self)
        ensures
            old(self)@.1 < old(self)@.0.len() ==> final(self)@.0 == old(self)@.0.remove(
                old(self)@.1 as int,
            ),
            old(self)@.1 >= old(self)@.0.len() ==> final(self)@.0 == old(self)@.0,
            final(self)@.1 == old(self)@.1,
            final(self)@.1 <= final(self)@.0.len(),
    {
        proof {
            use_type_invariant(&*self);
        }
        if self.cursor < self.text.len() {
            let at = self.cursor;
            let mut text = self.take_text();
            text.remove(at);
            self.text = text;
            self.cursor = at;
        }
    }

    /// Moves the cursor one character left, if it can.
    pub fn move_left(&mut self)
        ensures
            final(self)@.0 == old(self)@.0,
            final(self)@.1 == if old(self)@.1 > 0 {
                (old(self)@.1 - 1) as nat
            } else {
                0
            },
            final(self)@.1 <= final(self)@.0.len(),
    {
        proof {
            use_type_invariant(&*self);
        }
        self.cursor = self.cursor.saturating_sub(1);
    }

    /// Moves the cursor one character right, if it can.
    pub fn move_right(&mut self)
        ensures
            final(self)@.0 == old(self)@.0,
            final(self)@.1 == if old(self)@.1 < old(self)@.0.len() {
                old(self)@.1 + 1
            } else {
                old(self)@.1
            },
            final(self)@.1 <= final(self)@.0.len(),
    {
        proof {
            use_type_invariant(&*self);
        }
        let count = self.char_count();
        if self.cursor < count {
            self.cursor = self.cursor + 1;
        }
    }

    /// Moves the cursor to the start of the text.
    pub fn move_home(&mut self)
        ensures
            final(self)@.0 == old(self)@.0,
            final(self)@.1 == 0,
    {
        self.cursor = 0;
    }

    /// Moves the cursor to the end of the text.
    pub fn move_end(&mut self)
        ensures
            final(self)@.0 == old(self)@.0,
            final(self)@.1 == old(self)@.0.len(),
    {
        self.cursor = self.char_count();
    }

    /// Moves the cursor to the start of the word before it.
    pub fn move_word_left(&mut self)
        ensures
            final(self)@.0 == old(self)@.0,
            final(self)@.1 == word_left(old(self)@.0, old(self)@.1 as int),
            final(self)@.1 <= final(self)@.0.len(),
    {
        proof {
            use_type_invariant(&*self);
        }
        if self.cursor == 0 {
            return;
        }
        let chars = &self.text;
        let ghost s = chars@;
        let mut idx = self.cursor - 1;
        while idx > 0 && is_whitespace(chars[idx])
            invariant
                s == chars@,
                idx < s.len(),
                skip_space_back(s, self.cursor - 1) == skip_space_back(s, idx as int),
            decreases idx,
        {
            idx = idx - 1;
        }
        assert(skip_space_back(s, idx as int) == idx);
        let ghost mid = idx;
        while idx > 0 && !is_whitespace(chars[idx - 1])
            invariant
                s == chars@,
                idx <= mid < s.len(),
                skip_word_back(s, mid as int) == skip_word_back(s, idx as int),
            decreases idx,
        {
            idx = idx - 1;
        }
        assert(skip_word_back(s, idx as int) == idx);
        self.cursor = idx;
    }

    /// Moves the cursor past the end of the word at it and the whitespace after.
    pub fn move_word_right(&mut self)
        ensures
            final(self)@.0 == old(self)@.0,
            final(self)@.1 == word_right(old(self)@.0, old(self)@.1 as int),
            final(self)@.1 <= final(self)@.0.len(),
    {
        proof {
            use_type_invariant(&*self);
        }
        let count = self.char_count();
        if self.cursor >= count {
            return;
        }
        let chars = &self.text;
        let ghost s = chars@;
        let mut idx = self.cursor;
        while idx < count && !is_whitespace(chars[idx])
            invariant
                s == chars@,
                count == s.len(),
                self.cursor <= idx <= count,
                skip_word_fwd(s, self.cursor as int) == skip_word_fwd(s, idx as int),
            decreases count - idx,
        {
            idx = idx + 1;
        }
        assert(skip_word_fwd(s, idx as int) == idx);
        let ghost mid = idx;
        while idx < count && is_whitespace(chars[idx])
            invariant
                s == chars@,
                count == s.len(),
                mid <= idx <= count,
                skip_space_fwd(s, mid as int) == skip_space_fwd(s, idx as int),
            decreases count - idx,
        {
            idx = idx + 1;
        }
        assert(skip_space_fwd(s, idx as int) == idx);
        self.cursor = idx;
    }

    /// Lays the text out on screen after the prompt `"❯ "`, breaking lines at
    /// newlines and where a line would exceed the text width, and returns the
    /// display text, the cursor's column and line, and the number of lines.
    pub fn format_display_lines(&self, term_width: u16) -> (r: (String, u16, u16, u16))
        ensures
            ({
                let cols = text_columns(term_width);
                let s = self@.0;
                let done = layout(s, s.len(), cols);
                let at = layout(s, self@.1, cols);
                &&& r.0@ == done.0
                &&& r.1 == at.1 as u16
                &&& r.2 == at.2 as u16
                &&& r.3 == (done.2 + 1) as u16
            }),
    {
        proof {
            use_type_invariant(self);
        }
        let max_cols: usize = if term_width >= 12 {
            (term_width - 2) as usize
        } else {
            10
        };
        let ghost s = self.text@;
        let mut out: Vec<char> = Vec::new();
        out.push('❯');
        out.push(' ');
        let mut current_cols: usize = 2;
        let mut line: usize = 0;
        let mut target_x: u16 = 2;
        let mut target_y: u16 = 0;
        let n = self.text.len();
        let mut i: usize = 0;
        proof {
            reveal_strlit("❯ ");
            assert(out@ =~= "❯ "@);
        }
        while i < n
            invariant
                s == self.text@,
                n == s.len(),
                self.cursor <= n,
                max_cols == text_columns(term_width),
                i <= n,
                layout(s, i as nat, max_cols as nat) == (out@, current_cols as nat, line as nat),
                current_cols <= max_cols,
                line <= i,
                i > self.cursor ==> target_x == layout(s, self.cursor as nat, max_cols as nat).1 as u16
                    && target_y == layout(s, self.cursor as nat, max_cols as nat).2 as u16,
            decreases n - i,
        {
            if i == self.cursor {
                target_x = #[verifier::truncate] (current_cols as u16);
                target_y = #[verifier::truncate] (line as u16);
            }
            let ch = self.text[i];
            if ch == '\n' {
                out.push('\n');
                current_cols = 0;
                line = line + 1;
            } else if current_cols >= max_cols {
                out.push('\n');
                out.push(ch);
                current_cols = 1;
                line = line + 1;
            } else {
                out.push(ch);
                current_cols = current_cols + 1;
            }
            i = i + 1;
        }
        if self.cursor >= n {
            target_x = #[verifier::truncate] (current_cols as u16);
            target_y = #[verifier::truncate] (line as u16);
        }
        let last: u16 = #[verifier::truncate] (line as u16);
        let total: u16 = if last < 0xffff {
            last + 1
        } else {
            0
        };
        assert(((line + 1) as u16) == (if (line as u16) < 0xffff {
            ((line as u16) + 1) as u16
        } else {
            0u16
        })) by (bit_vector);
        (string_of(&out), target_x, target_y, total)
    }

    /// Empties the text and moves the cursor to its start.
    pub fn clear(&mut self)
        ensures
            final(self)@.0 == Seq::<char>::empty(),
            final(self)@.1 == 0,
    {
        self.cursor = 0;
        self.text = Vec::new();
    }

    /// Moves the text out, leaving an empty text and the cursor at 0.
    fn take_text(&mut self) -> (r: Vec<char>)
        ensures
            r@ == old(self)@.0,
            final(self)@.0 == Seq::<char>::empty(),
            final(self)@.1 == 0,
    {
        self.cursor = 0;
        let mut text: Vec<char> = Vec::new();
        std::mem::swap(&mut text, &mut self.text);
        text
    }
}

/// Typing a character and deleting it again with backspace gives back the
/// line as it was, cursor included.
pub proof fn law_insert_then_backspace(s: Seq<char>, c: nat, ch: char)
    requires
        c <= s.len(),
    ensures
        s.insert(c as int, ch).remove(c as int) == s,
        (c + 1) - 1 == c,
{
    assert(s.insert(c as int, ch).remove(c as int) =~= s);
}

/// Where a word starts: at index 0, or at a character that is not
/// whitespace right after one that is.
pub open spec fn word_start(s: Seq<char>, j: int) -> bool {
    j == 0 || (0 < j < s.len() && is_space(s[j - 1]) && !is_space(s[j]))
}

/// Where a move one word right may stop: at the end of the text, or where a
/// word starts.
pub open spec fn word_stop(s: Seq<char>, j: int) -> bool {
    j == s.len() || (0 < j < s.len() && is_space(s[j - 1]) && !is_space(s[j]))
}

/// A move one word left lands on the nearest word start strictly left of
/// the cursor (or stays at 0).
pub proof fn law_word_left_lands_on_word_start(s: Seq<char>, c: int)
    requires
        0 <= c <= s.len(),
    ensures
        0 <= word_left(s, c) <= c,
        word_left(s, c) == 0 || is_space(s[word_left(s, c) - 1]),
        c == 0 ==> word_left(s, c) == 0,
        c > 0 ==> word_left(s, c) < c && word_start(s, word_left(s, c)) && forall|k: int|
            word_left(s, c) < k < c ==> !word_start(s, k),
{
    if c > 0 {
        lemma_skip_space_back(s, c - 1);
        let i = skip_space_back(s, c - 1);
        lemma_skip_word_back(s, i);
        let j = skip_word_back(s, i);
        if i > 0 || !is_space(s[0]) {
            assert(!is_space(s[i]));
            if j < i {
                assert(!is_space(s[j]));
            }
        }
        assert forall|k: int| j < k < c implies !word_start(s, k) by {
            if k <= i {
                assert(!is_space(s[k - 1]));
            } else {
                assert(is_space(s[k]));
            }
        }
    }
}

/// A move one word right lands on the nearest stop strictly right of the
/// cursor: the next word start, or the end of the text (where it stays).
pub proof fn law_word_right_lands_on_word_start(s: Seq<char>, c: int)
    requires
        0 <= c <= s.len(),
    ensures
        c <= word_right(s, c) <= s.len(),
        word_right(s, c) == s.len() || !is_space(s[word_right(s, c)]),
        c == s.len() ==> word_right(s, c) == c,
        c < s.len() ==> c < word_right(s, c) && word_stop(s, word_right(s, c)) && forall|k: int|
            c < k < word_right(s, c) ==> !word_stop(s, k),
{
    if c < s.len() {
        lemma_skip_word_fwd(s, c);
        let i = skip_word_fwd(s, c);
        lemma_skip_space_fwd(s, i);
        let r = skip_space_fwd(s, i);
        if i == c {
            assert(is_space(s[c]));
        }
        if r < s.len() {
            assert(!is_space(s[r]));
            if r == i {
                assert(is_space(s[i]));
            }
            assert(is_space(s[r - 1]));
        }
        assert forall|k: int| c < k < r implies !word_stop(s, k) by {
            if k <= i {
                assert(!is_space(s[k - 1]));
            } else {
                assert(is_space(s[k]));
            }
        }
    }
}

/// The cursor's line never exceeds the last line of the layout.
pub proof fn law_cursor_line_within_layout(s: Seq<char>, c: nat, cols: nat)
    requires
        c <= s.len(),
    ensures
        layout(s, c, cols).2 <= layout(s, s.len(), cols).2,
    decreases s.len() - c,
{
    if c < s.len() {
        lemma_layout_line_step(s, (c + 1) as nat, cols);
        law_cursor_line_within_layout(s, c + 1, cols);
    }
}

proof fn lemma_layout_line_step(s: Seq<char>, n: nat, cols: nat)
    requires
        0 < n <= s.len(),
    ensures
        layout(s, (n - 1) as nat, cols).2 <= layout(s, n, cols).2,
{
}

/// The length of the last line of `t`: the characters after its last line
/// feed.
pub open spec fn last_line_len(t: Seq<char>) -> nat
    decreases t.len(),
{
    if t.len() == 0 || t.last() == '\n' {
        0
    } else {
        last_line_len(t.drop_last()) + 1
    }
}

/// Whether no line of `t` is longer than `cols` characters.
pub open spec fn lines_fit(t: Seq<char>, cols: nat) -> bool
    decreases t.len(),
{
    t.len() == 0 || (lines_fit(t.drop_last(), cols) && last_line_len(t) <= cols)
}

/// The number of line feeds in `t`.
pub open spec fn line_feeds(t: Seq<char>) -> nat
    decreases t.len(),
{
    if t.len() == 0 {
        0
    } else if t.last() == '\n' {
        line_feeds(t.drop_last()) + 1
    } else {
        line_feeds(t.drop_last())
    }
}

/// `t` without its line feeds.
pub open spec fn without_breaks(t: Seq<char>) -> Seq<char>
    decreases t.len(),
{
    if t.len() == 0 {
        t
    } else if t.last() == '\n' {
        without_breaks(t.drop_last())
    } else {
        without_breaks(t.drop_last()).push(t.last())
    }
}

proof fn lemma_layout_shape(s: Seq<char>, n: nat, cols: nat)
    requires
        n <= s.len(),
        cols >= 2,
    ensures
        ({
            let (t, c, l) = layout(s, n, cols);
            &&& t.len() >= 2
            &&& t.take(2) == "❯ "@
            &&& last_line_len(t) == c
            &&& c <= cols
            &&& lines_fit(t, cols)
            &&& line_feeds(t) == l
            &&& without_breaks(t) == "❯ "@ + without_breaks(s.take(n as int))
        }),
    decreases n,
{
    reveal_strlit("❯ ");
    if n == 0 {
        let t = seq!['❯', ' '];
        assert("❯ "@ =~= t);
        let a = seq!['❯'];
        assert(t.drop_last() =~= a);
        assert(a.drop_last() =~= Seq::<char>::empty());
        assert(a.last() == '❯');
        assert(t.last() == ' ');
        assert(last_line_len(Seq::<char>::empty()) == 0);
        assert(last_line_len(a) == 1);
        assert(last_line_len(t) == 2);
        assert(lines_fit(Seq::<char>::empty(), cols));
        assert(lines_fit(a, cols));
        assert(lines_fit(t, cols));
        assert(line_feeds(Seq::<char>::empty()) == 0);
        assert(line_feeds(a) == 0);
        assert(line_feeds(t) == 0);
        assert(without_breaks(Seq::<char>::empty()) =~= Seq::<char>::empty());
        assert(without_breaks(a) =~= Seq::<char>::empty().push('❯'));
        assert(without_breaks(t) =~= a.push(' '));
        assert(t.take(2) =~= t);
        assert(s.take(0) =~= Seq::<char>::empty());
        assert(without_breaks(Seq::<char>::empty()) =~= Seq::<char>::empty());
        assert(t + Seq::<char>::empty() =~= t);
    } else {
        lemma_layout_shape(s, (n - 1) as nat, cols);
        let (t, c, l) = layout(s, (n - 1) as nat, cols);
        let ch = s[n - 1];
        assert(s.take(n as int).drop_last() =~= s.take(n - 1));
        assert(s.take(n as int).last() == ch);
        let w = "❯ "@ + without_breaks(s.take(n - 1));
        let sn = s.take(n as int);
        if ch == '\n' {
            let u = t.push('\n');
            assert(u.drop_last() =~= t);
            assert(u.last() == '\n');
            assert(u.take(2) =~= t.take(2));
            assert(last_line_len(u) == 0);
            assert(lines_fit(u, cols));
            assert(line_feeds(u) == l + 1);
            assert(without_breaks(u) == without_breaks(t));
            assert(without_breaks(sn) == without_breaks(s.take(n - 1)));
        } else if c >= cols {
            let u = t.push('\n');
            let v = u.push(ch);
            assert(u.drop_last() =~= t);
            assert(v.drop_last() =~= u);
            assert(u.last() == '\n');
            assert(v.last() == ch);
            assert(v.take(2) =~= t.take(2));
            assert(last_line_len(u) == 0);
            assert(last_line_len(v) == 1);
            assert(lines_fit(u, cols));
            assert(lines_fit(v, cols));
            assert(line_feeds(u) == l + 1);
            assert(line_feeds(v) == l + 1);
            assert(without_breaks(u) == without_breaks(t));
            assert(without_breaks(v) == without_breaks(t).push(ch));
            assert(without_breaks(sn) == without_breaks(s.take(n - 1)).push(ch));
            assert(w.push(ch) =~= "❯ "@ + without_breaks(s.take(n - 1)).push(ch));
        } else {
            let u = t.push(ch);
            assert(u.drop_last() =~= t);
            assert(u.last() == ch);
            assert(u.take(2) =~= t.take(2));
            assert(last_line_len(u) == c + 1);
            assert(lines_fit(u, cols));
            assert(line_feeds(u) == l);
            assert(without_breaks(u) == without_breaks(t).push(ch));
            assert(without_breaks(sn) == without_breaks(s.take(n - 1)).push(ch));
            assert(w.push(ch) =~= "❯ "@ + without_breaks(s.take(n - 1)).push(ch));
        }
    }
}

/// The input box shows the prompt `"❯ "` and then the text: no line is wider
/// than the text area, the lines are one more than the line feeds shown,
/// the column of the next character stays within the width, and without
/// its line feeds the display is the prompt followed by the text without
/// its own.
pub proof fn law_display_lines_fit_and_keep_the_text(s: Seq<char>, cursor: nat, term_width: u16)
    requires
        cursor <= s.len(),
    ensures
        ({
            let cols = text_columns(term_width);
            let (t, c, l) = layout(s, s.len(), cols);
            &&& t.take(2) == "❯ "@
            &&& lines_fit(t, cols)
            &&& line_feeds(t) == l
            &&& c <= cols
            &&& layout(s, cursor, cols).1 <= cols
            &&& layout(s, cursor, cols).2 <= l
            &&& without_breaks(t) == "❯ "@ + without_breaks(s)
        }),
{
    let cols = text_columns(term_width);
    lemma_layout_shape(s, s.len(), cols);
    lemma_layout_shape(s, cursor, cols);
    law_cursor_line_within_layout(s, cursor, cols);
    assert(s.take(s.len() as int) =~= s);
}

} // verus!
