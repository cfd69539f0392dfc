use vstd::prelude::*;
use crate::text::{
    char_is_whitespace, chars_of, is_white_space, prefix_of, slice_from_start, string_from_chars,
    utf8_len,
};

verus! {

/// A key pressed at the prompt.
pub enum Key {
    Esc,
    Backspace,
    Enter,
    Left,
    Right,
    Char(char),
    Other,
}

/// What the program does after a key press at the prompt.
pub enum KeyOutcome {
    /// Goes on reading keys.
    Continue,
    /// Quits.
    Quit,
    /// Says that the URL is empty.
    EmptyUrl,
    /// Starts downloading the URL typed in (the prompt is now empty).
    Submit(String),
}

/// What a `Prompt` holds: the characters typed so far and the cursor.
pub struct PromptState {
    pub buffer: Seq<char>,
    pub cursor: nat,
}

/// The cursor of `p`, moved back onto the buffer if it is past its end.
pub open spec fn clamped(p: PromptState) -> nat {
    if p.cursor > p.buffer.len() {
        p.buffer.len()
    } else {
        p.cursor
    }
}

/// Whether the cursor of `p` lies on the buffer or just after its end.
pub open spec fn in_bounds(p: PromptState) -> bool {
    p.cursor <= p.buffer.len()
}

/// The character at position `i` of `buf`, or a line break past its end.
pub open spec fn char_at(buf: Seq<char>, i: int) -> char {
    if 0 <= i < buf.len() {
        buf[i]
    } else {
        '\n'
    }
}

/// Whether typing or pasting `c` puts it in the prompt (line breaks are dropped).
pub open spec fn insertable(c: char) -> bool {
    c != '\r' && c != '\n'
}

/// The characters of `s` that a paste puts in the prompt, in order.
pub open spec fn line_content(s: Seq<char>) -> Seq<char> {
    s.filter(|c: char| insertable(c))
}

/// `p` after typing `x`: `x` goes in at the (clamped) cursor, which then
/// moves past it.
pub open spec fn inserted(p: PromptState, x: char) -> PromptState {
    let c = clamped(p);
    PromptState { buffer: p.buffer.insert(c as int, x), cursor: c + 1 }
}

/// `p` after pasting `s`: the characters of `s` other than line breaks go in
/// at the (clamped) cursor, which moves past them; when there are none, `p`
/// is left as it was (the cursor is not clamped).
pub open spec fn inserted_text(p: PromptState, s: Seq<char>) -> PromptState {
    let t = line_content(s);
    let c = clamped(p);
    if t.len() == 0 {
        p
    } else {
        PromptState { buffer: p.buffer.take(c as int) + t + p.buffer.skip(c as int), cursor: c + t.len() }
    }
}

/// `p` after one step left.
pub open spec fn moved_left(p: PromptState) -> PromptState {
    if p.cursor > 0 {
        PromptState { cursor: (p.cursor - 1) as nat, ..p }
    } else {
        p
    }
}

/// `p` after one step right (never past the end of the buffer).
pub open spec fn moved_right(p: PromptState) -> PromptState {
    if p.cursor < p.buffer.len() {
        PromptState { cursor: p.cursor + 1, ..p }
    } else {
        p
    }
}

/// The position reached from `c` by stepping left while the character at
/// the position is (`ws`) or is not (`!ws`) whitespace.
pub open spec fn retreat(buf: Seq<char>, c: int, ws: bool) -> int
    decreases c,
{
    if c > 0 && is_white_space(char_at(buf, c)) == ws {
        retreat(buf, c - 1, ws)
    } else {
        c
    }
}

/// The position reached from `c` by stepping right, up to the end of the
/// buffer, while the character at the position is (`ws`) or is not (`!ws`)
/// whitespace.
pub open spec fn advance(buf: Seq<char>, c: int, ws: bool) -> int
    decreases buf.len() - c,
{
    if c < buf.len() && is_white_space(char_at(buf, c)) == ws {
        advance(buf, c + 1, ws)
    } else {
        c
    }
}

/// `p` after moving a word left: first over whitespace, then over the word.
pub open spec fn word_left(p: PromptState) -> PromptState {
    let m = retreat(p.buffer, p.cursor as int, true);
    PromptState { cursor: retreat(p.buffer, m, false) as nat, ..p }
}

/// `p` after moving a word right: first over whitespace, then over the word.
pub open spec fn word_right(p: PromptState) -> PromptState {
    let m = advance(p.buffer, p.cursor as int, true);
    PromptState { cursor: advance(p.buffer, m, false) as nat, ..p }
}

/// `p` after a backspace: the character before the cursor goes.
pub open spec fn backspaced(p: PromptState) -> PromptState {
    if p.cursor > 0 {
        PromptState { buffer: p.buffer.remove(p.cursor - 1), cursor: (p.cursor - 1) as nat }
    } else {
        p
    }
}

/// The empty prompt.
pub open spec fn empty_prompt() -> PromptState {
    PromptState { buffer: Seq::empty(), cursor: 0 }
}

/// `p` with everything from the cursor on removed.
pub open spec fn cut_at_cursor(p: PromptState) -> PromptState {
    if p.cursor < p.buffer.len() {
        PromptState { buffer: p.buffer.take(p.cursor as int), ..p }
    } else {
        p
    }
}

/// The one-line text field in which a URL is typed.
#[derive(Clone)]
pub struct Prompt {
    pub buffer: Vec<char>,
    pub cursor: usize,
}

impl View for Prompt {
    type V = PromptState;

    open spec fn view(&self) -> PromptState {
        PromptState { buffer: self.buffer@, cursor: self.cursor as nat }
    }
}

impl Default for Prompt {
    fn default() -> (r: Self)
        ensures
            r@ == empty_prompt(),
    {
        Prompt { buffer: Vec::new(), cursor: 0 }
    }
}

impl Prompt {
    /// Where the terminal cursor goes when the prompt is drawn at column `x`
    /// of row `y` in a terminal `w` columns wide: nowhere (`None`) when the
    /// terminal is narrower than two columns.
    pub fn sync_terminal_cursor(&self, x: usize, y: usize, w: usize) -> (r: Option<(u16, u16)>)
        requires
            w >= 2 ==> (x as u16) + (self.cursor as u16) <= u16::MAX,
        ensures
            r == (if w >= 2 {
                Some((((x as u16) + (self.cursor as u16)) as u16, y as u16))
            } else {
                None
            }),
    {
        if w >= 2 {
            Some(((x as u16) + (self.cursor as u16), y as u16))
        } else {
            None
        }
    }

    /// Handles a key press, with the Control or Shift key held or not:
    /// Esc and Control+C quit, Control+K clears, other characters are typed,
    /// Backspace deletes, Enter hands over the URL (or reports that it is
    /// empty), Right and Left move the cursor by a character, or by a word
    /// with Control (Right) or Shift (Left).
    pub fn handle_key(&mut self, key: Key, control: bool, shift: bool) -> (r: KeyOutcome)
        requires
            key is Backspace ==> in_bounds(old(self)@),
        ensures
            match key {
                Key::Esc => r is Quit && final(self)@ == old(self)@,
                Key::Backspace => r is Continue && final(self)@ == backspaced(old(self)@),
                Key::Char(x) => if !control {
                    r is Continue && final(self)@ == inserted(old(self)@, x)
                } else if x == 'c' {
                    r is Quit && final(self)@ == old(self)@
                } else if x == 'k' {
                    r is Continue && final(self)@ == empty_prompt()
                } else {
                    r is Continue && final(self)@ == old(self)@
                },
                Key::Enter => if old(self)@.buffer.len() == 0 {
                    r is EmptyUrl && final(self)@ == old(self)@
                } else {
                    r matches KeyOutcome::Submit(url) && url@ == old(self)@.buffer
                        && final(self)@ == empty_prompt()
                },
                Key::Right => r is Continue && final(self)@ == (if control {
                    word_right(old(self)@)
                } else {
                    moved_right(old(self)@)
                }),
                Key::Left => r is Continue && final(self)@ == (if shift {
                    word_left(old(self)@)
                } else {
                    moved_left(old(self)@)
                }),
                Key::Other => r is Continue && final(self)@ == old(self)@,
            },
    {
        match key {
            Key::Esc => KeyOutcome::Quit,
            Key::Backspace => {
                self.backspace();
                KeyOutcome::Continue
            },
            Key::Char(x) => {
                if control {
                    if x == 'c' {
                        KeyOutcome::Quit
                    } else if x == 'k' {
                        self.clear();
                        KeyOutcome::Continue
                    } else {
                        KeyOutcome::Continue
                    }
                } else {
                    self.insert(x);
                    KeyOutcome::Continue
                }
            },
            Key::Enter => {
                if self.buffer.len() == 0 {
                    KeyOutcome::EmptyUrl
                } else {
                    let url = string_from_chars(self.buffer.as_slice());
                    self.clear();
                    KeyOutcome::Submit(url)
                }
            },
            Key::Right => {
                if control {
                    self.right_word();
                } else {
                    self.right_char();
                }
                KeyOutcome::Continue
            },
            Key::Left => {
                if shift {
                    self.left_word();
                } else {
                    self.left_char();
                }
                KeyOutcome::Continue
            },
            Key::Other => KeyOutcome::Continue,
        }
    }

    /// Types `x` at the cursor.
    pub fn insert(&mut self, x: char)
        ensures
            final(self)@ == inserted(old(self)@, x),
    {
        if self.cursor > self.buffer.len() {
            self.cursor = self.buffer.len();
        }
        self.buffer.insert(self.cursor, x);
        assert(self.cursor < self.buffer.len());
        self.cursor += 1;
    }

    /// Pastes `text` at the cursor, leaving out its line breaks.
    pub fn insert_str(&mut self, text: &str)
        ensures
            final(self)@ == inserted_text(old(self)@, text@),
    {
        let ghost p0 = self@;
        let chars = chars_of(text);
        let mut i: usize = 0;
        while i < chars.len()
            invariant
                chars@ == text@,
                i <= chars.len(),
                self@ == inserted_text(p0, chars@.take(i as int)),
            decreases chars.len() - i,
        {
            let x = chars[i];
            proof {
                lemma_inserted_text_push(p0, chars@.take(i as int), x);
                assert(chars@.take(i + 1) =~= chars@.take(i as int).push(x));
            }
            if x != '\r' && x != '\n' {
                self.insert(x)
            }
            i += 1;
        }
        proof {
            assert(chars@.take(i as int) =~= text@);
        }
    }

    /// Moves the cursor one character left.
    pub fn left_char(&mut self)
        ensures
            final(self)@ == moved_left(old(self)@),
    {
        if self.cursor > 0 {
            self.cursor -= 1;
        }
    }

    /// Moves the cursor one character right.
    pub fn right_char(&mut self)
        ensures
            final(self)@ == moved_right(old(self)@),
    {
        if self.cursor < self.buffer.len() {
            self.cursor += 1;
        }
    }

    /// The character under the cursor, or a line break past the end.
    pub fn at_cursor(&self) -> (r: char)
        ensures
            r == char_at(self.buffer@, self.cursor as int),
    {
        if self.cursor < self.buffer.len() {
            self.buffer[self.cursor]
        } else {
            '\n'
        }
    }

    /// Moves the cursor a word left.
    pub fn left_word(&mut self)
        ensures
            final(self)@ == word_left(old(self)@),
    {
        let ghost p0 = self@;
        while self.cursor > 0 && char_is_whitespace(self.at_cursor())
            invariant
                self.buffer@ == p0.buffer,
                retreat(p0.buffer, self.cursor as int, true) == retreat(p0.buffer, p0.cursor as int, true),
            decreases self.cursor,
        {
            self.cursor -= 1;
        }
        let ghost m = self.cursor as int;
        while self.cursor > 0 && !char_is_whitespace(self.at_cursor())
            invariant
                self.buffer@ == p0.buffer,
                retreat(p0.buffer, self.cursor as int, false) == retreat(p0.buffer, m, false),
                m == retreat(p0.buffer, p0.cursor as int, true),
            decreases self.cursor,
        {
            self.cursor -= 1;
        }
    }

    /// Moves the cursor a word right.
    pub fn right_word(&mut self)
        ensures
            final(self)@ == word_right(old(self)@),
    {
        let ghost p0 = self@;
        while self.cursor < self.buffer.len() && char_is_whitespace(self.at_cursor())
            invariant
                self.buffer@ == p0.buffer,
                advance(p0.buffer, self.cursor as int, true) == advance(p0.buffer, p0.cursor as int, true),
            decreases self.buffer.len() - self.cursor,
        {
            self.cursor += 1;
        }
        let ghost m = self.cursor as int;
        while self.cursor < self.buffer.len() && !char_is_whitespace(self.at_cursor())
            invariant
                self.buffer@ == p0.buffer,
                advance(p0.buffer, self.cursor as int, false) == advance(p0.buffer, m, false),
                m == advance(p0.buffer, p0.cursor as int, true),
            decreases self.buffer.len() - self.cursor,
        {
            self.cursor += 1;
        }
    }

    /// Deletes the character before the cursor.
    pub fn backspace(&mut self)
        requires
            in_bounds(old(self)@),
        ensures
            final(self)@ == backspaced(old(self)@),
    {
        if self.cursor > 0 {
            self.cursor -= 1;
            self.buffer.remove(self.cursor);
        }
    }

    /// The characters before the cursor.
    pub fn _before_cursor(&self) -> (r: &[char])
        requires
            in_bounds(self@),
        ensures
            r@ == self.buffer@.take(self.cursor as int),
    {
        vstd::slice::slice_subrange(self.buffer.as_slice(), 0, self.cursor)
    }

    /// The characters from the cursor on.
    pub fn _after_cursor(&self) -> (r: &[char])
        requires
            in_bounds(self@),
        ensures
            r@ == self.buffer@.skip(self.cursor as int),
    {
        vstd::slice::slice_subrange(self.buffer.as_slice(), self.cursor, self.buffer.len())
    }

    /// Empties the prompt.
    pub fn clear(&mut self)
        ensures
            final(self)@ == empty_prompt(),
    {
        self.buffer.clear();
        self.cursor = 0;
    }

    /// Removes everything from the cursor on.
    pub fn _delete_until_end(&mut self)
        ensures
            final(self)@ == cut_at_cursor(old(self)@),
    {
        let ghost p0 = self@;
        while self.cursor < self.buffer.len()
            invariant
                self.cursor == p0.cursor,
                p0.cursor < p0.buffer.len() ==> self.cursor <= self.buffer@.len() <= p0.buffer.len()
                    && self.buffer@ == p0.buffer.take(self.buffer@.len() as int),
                p0.cursor >= p0.buffer.len() ==> self.buffer@ == p0.buffer,
            decreases self.buffer.len(),
        {
            self.buffer.pop();
        }
        proof {
            if p0.cursor < p0.buffer.len() {
                assert(self.buffer@ =~= p0.buffer.take(p0.cursor as int));
            }
        }
    }
}

/// Pasting one more character `x` after `s` is pasting `s`, then typing
/// `x` if it is not a line break.
pub proof fn lemma_inserted_text_push(p: PromptState, s: Seq<char>, x: char)
    ensures
        inserted_text(p, s.push(x)) == (if insertable(x) {
            inserted(inserted_text(p, s), x)
        } else {
            inserted_text(p, s)
        }),
{
    let f = |c: char| insertable(c);
    s.lemma_filter_push(x, f);
    let t = line_content(s);
    let c = clamped(p);
    if insertable(x) {
        assert(line_content(s.push(x)) == t.push(x));
        let q = inserted_text(p, s);
        if t.len() == 0 {
            assert(t.push(x) =~= seq![x]);
            assert(p.buffer.take(c as int) + seq![x] + p.buffer.skip(c as int) =~= p.buffer.insert(
                c as int,
                x,
            ));
        } else {
            assert(clamped(q) == c + t.len());
            assert(q.buffer.insert((c + t.len()) as int, x) =~= p.buffer.take(c as int) + t.push(x)
                + p.buffer.skip(c as int));
        }
    }
}

/// How many of `n` results are scrolled away when only `height` rows fit.
pub open spec fn hidden_results(n: nat, height: nat) -> nat {
    if n > height {
        (n - height) as nat
    } else {
        0
    }
}

/// The contents of each string of `v`, in order.
pub open spec fn string_views(v: Seq<String>) -> Seq<Seq<char>> {
    v.map_values(|s: String| s@)
}

/// The messages about finished and failed downloads, oldest first.
#[derive(Clone)]
pub struct DownloadResults {
    dr: Vec<String>,
}

impl View for DownloadResults {
    type V = Seq<Seq<char>>;

    closed spec fn view(&self) -> Seq<Seq<char>> {
        string_views(self.dr@)
    }
}

impl Default for DownloadResults {
    fn default() -> (r: Self)
        ensures
            r@ == Seq::<Seq<char>>::empty(),
    {
        let r = DownloadResults { dr: Vec::new() };
        assert(r@ =~= Seq::<Seq<char>>::empty());
        r
    }
}

impl DownloadResults {
    /// Adds a message after the others.
    pub fn push(&mut self, string: String)
        ensures
            final(self)@ == old(self)@.push(string@),
    {
        let ghost s = string@;
        self.dr.push(string);
        assert(self@ =~= old(self)@.push(s));
    }

    /// The messages to draw when `height_bound` rows are free: the newest
    /// ones that fit, oldest first; the message at position `i` goes on row `i`.
    pub fn render(&self, height_bound: usize) -> (rows: Vec<String>)
        ensures
            string_views(rows@) == self@.skip(
                hidden_results(self@.len(), height_bound as nat) as int,
            ),
    {
        let n = self.dr.len();
        let m: usize = if n > height_bound {
            n - height_bound
        } else {
            0
        };
        let mut rows: Vec<String> = Vec::new();
        let mut i: usize = m;
        while i < n
            invariant
                n == self.dr.len(),
                m <= i <= n,
                self@.len() == n,
                rows@.len() == i - m,
                string_views(rows@) == self@.subrange(m as int, i as int),
            decreases n - i,
        {
            let line = self.dr[i].clone();
            assert(line@ == self@[i as int]);
            let ghost before = rows@;
            rows.push(line);
            assert forall|j: int| 0 <= j < rows@.len() implies #[trigger] string_views(rows@)[j]
                == self@.subrange(m as int, i + 1)[j] by {
                if j < before.len() {
                    assert(string_views(before)[j] == self@.subrange(m as int, i as int)[j]);
                }
            }
            assert(string_views(rows@) =~= self@.subrange(m as int, i + 1));
            i += 1;
        }
        assert(self@.skip(m as int) =~= self@.subrange(m as int, n as int));
        rows
    }
}

/// The drawn messages are the newest that fit: as many as there are rows
/// (or all, when fewer), in the order they came.
pub proof fn law_render_shows_newest(results: Seq<Seq<char>>, height: nat)
    ensures
        ({
            let shown = results.skip(hidden_results(results.len(), height) as int);
            &&& shown.len() == if results.len() < height {
                results.len()
            } else {
                height
            }
            &&& forall|k: int|
                0 <= k < shown.len() ==> #[trigger] shown[k] == results[results.len() - shown.len()
                    + k]
        }),
{
}

/// How a download of `url` is named on a terminal `w` columns wide: the URL
/// itself when it fits in half the width plus twenty bytes, else its first
/// characters (half the width less twenty) followed by `...`.
pub open spec fn shown_name(url: Seq<char>, w: u16) -> Seq<char> {
    if utf8_len(url) > w / 2 + 20 {
        prefix_of(url, w / 2 - 20) + seq!['.', '.', '.']
    } else {
        url
    }
}

/// The name under which a download of `url` is listed on a terminal `w`
/// columns wide.
pub fn display_name(url: String, w: u16) -> (r: String)
    requires
        utf8_len(url@) <= usize::MAX,
        utf8_len(url@) > w / 2 + 20 ==> w / 2 >= 20,
    ensures
        r@ == shown_name(url@, w),
{
    if url.as_str().len() > (w / 2 + 20) as usize {
        let mut slice = slice_from_start(url, (w / 2 - 20) as usize);
        slice.append("...");
        proof {
            reveal_strlit("...");
            assert("..."@ =~= seq!['.', '.', '.']);
        }
        slice
    } else {
        url
    }
}

/// The message listed when the download shown as `name` has finished.
pub fn finished_message(name: &str) -> (r: String)
    ensures
        r@ == name@ + " finished"@,
{
    let mut text: String = name.to_owned();
    text.append(" finished");
    text
}

/// The message listed when the download shown as `name` has failed for
/// `reason`.
pub fn failed_message(name: &str, reason: &str) -> (r: String)
    ensures
        r@ == name@ + " failed. "@ + reason@,
{
    let mut text: String = name.to_owned();
    text.append(" failed. ");
    text.append(reason);
    text
}

/// `p` after typing each character of `s` in turn.
pub open spec fn typed(p: PromptState, s: Seq<char>) -> PromptState
    decreases s.len(),
{
    if s.len() == 0 {
        p
    } else {
        inserted(typed(p, s.drop_last()), s.last())
    }
}

proof fn lemma_advance(buf: Seq<char>, c: int, ws: bool)
    requires
        0 <= c <= buf.len(),
    ensures
        c <= advance(buf, c, ws) <= buf.len(),
        forall|k: int| c <= k < advance(buf, c, ws) ==> is_white_space(#[trigger] buf[k]) == ws,
        advance(buf, c, ws) < buf.len() ==> is_white_space(buf[advance(buf, c, ws)]) != ws,
    decreases buf.len() - c,
{
    if c < buf.len() && is_white_space(char_at(buf, c)) == ws {
        lemma_advance(buf, c + 1, ws);
    }
}

proof fn lemma_retreat(buf: Seq<char>, c: int, ws: bool)
    requires
        0 <= c,
    ensures
        0 <= retreat(buf, c, ws) <= c,
        forall|k: int|
            retreat(buf, c, ws) < k <= c ==> is_white_space(#[trigger] char_at(buf, k)) == ws,
        retreat(buf, c, ws) > 0 ==> is_white_space(char_at(buf, retreat(buf, c, ws))) != ws,
    decreases c,
{
    if c > 0 && is_white_space(char_at(buf, c)) == ws {
        lemma_retreat(buf, c - 1, ws);
    }
}

/// A backspace right after typing a character gives back the prompt as it
/// was, whenever the cursor was on the buffer.
pub proof fn law_backspace_undoes_insert(p: PromptState, x: char)
    requires
        in_bounds(p),
    ensures
        backspaced(inserted(p, x)) == p,
{
    assert(p.buffer.insert(p.cursor as int, x).remove(p.cursor as int) =~= p.buffer);
}

/// Typing puts the character just before the new cursor and makes the
/// buffer one longer; the cursor ends on the buffer whatever it was before.
pub proof fn law_insert_puts_char_before_cursor(p: PromptState, x: char)
    ensures
        inserted(p, x).buffer.len() == p.buffer.len() + 1,
        inserted(p, x).cursor >= 1,
        inserted(p, x).buffer[inserted(p, x).cursor - 1] == x,
        in_bounds(inserted(p, x)),
        inserted(p, x).buffer.take(clamped(p) as int) == p.buffer.take(clamped(p) as int),
        inserted(p, x).buffer.skip(inserted(p, x).cursor as int) == p.buffer.skip(clamped(p) as int),
{
    let q = inserted(p, x);
    assert(q.buffer.take(clamped(p) as int) =~= p.buffer.take(clamped(p) as int));
    assert(q.buffer.skip(q.cursor as int) =~= p.buffer.skip(clamped(p) as int));
}

/// Pasting a text is typing, one after the other, each of its characters
/// that is not a line break.
pub proof fn law_paste_is_typing_each_char(p: PromptState, s: Seq<char>)
    ensures
        inserted_text(p, s) == typed(p, line_content(s)),
    decreases s.len(),
{
    if s.len() == 0 {
        reveal(Seq::filter);
        assert(line_content(s) =~= Seq::<char>::empty());
    } else {
        let f = |c: char| insertable(c);
        law_paste_is_typing_each_char(p, s.drop_last());
        assert(s =~= s.drop_last().push(s.last()));
        lemma_inserted_text_push(p, s.drop_last(), s.last());
        s.drop_last().lemma_filter_push(s.last(), f);
        if insertable(s.last()) {
            let t = line_content(s.drop_last()).push(s.last());
            assert(t.drop_last() =~= line_content(s.drop_last()));
        }
    }
}

proof fn lemma_line_content_keeps_all(s: Seq<char>)
    requires
        forall|k: int| 0 <= k < s.len() ==> s[k] != '\r' && s[k] != '\n',
    ensures
        line_content(s) == s,
    decreases s.len(),
{
    if s.len() == 0 {
        reveal(Seq::filter);
        assert(line_content(s) =~= s);
    } else {
        let f = |c: char| insertable(c);
        lemma_line_content_keeps_all(s.drop_last());
        s.drop_last().lemma_filter_push(s.last(), f);
        assert(s.drop_last().push(s.last()) =~= s);
    }
}

/// Pasting a text that holds no line break puts the whole text, unchanged,
/// at the cursor (moved back onto the buffer if it was past its end), and
/// leaves the cursor just after it.
pub proof fn law_paste_inserts_whole_line(p: PromptState, s: Seq<char>)
    requires
        s.len() > 0,
        forall|k: int| 0 <= k < s.len() ==> s[k] != '\r' && s[k] != '\n',
    ensures
        ({
            let c: int = if p.cursor > p.buffer.len() {
                p.buffer.len() as int
            } else {
                p.cursor as int
            };
            &&& inserted_text(p, s).buffer == p.buffer.take(c) + s + p.buffer.skip(c)
            &&& inserted_text(p, s).cursor == c + s.len()
        }),
{
    lemma_line_content_keeps_all(s);
}

/// Every operation of the prompt keeps the cursor on the buffer (or just
/// after its end) when it was there before.
pub proof fn law_cursor_stays_in_bounds(p: PromptState, x: char, s: Seq<char>)
    requires
        in_bounds(p),
    ensures
        in_bounds(inserted(p, x)),
        in_bounds(inserted_text(p, s)),
        in_bounds(moved_left(p)),
        in_bounds(moved_right(p)),
        in_bounds(word_left(p)),
        in_bounds(word_right(p)),
        in_bounds(backspaced(p)),
        in_bounds(cut_at_cursor(p)),
        in_bounds(empty_prompt()),
{
    lemma_retreat(p.buffer, p.cursor as int, true);
    lemma_retreat(p.buffer, retreat(p.buffer, p.cursor as int, true), false);
    lemma_advance(p.buffer, p.cursor as int, true);
    lemma_advance(p.buffer, advance(p.buffer, p.cursor as int, true), false);
}

/// One step left and one step right cancel out inside the buffer.
pub proof fn law_left_and_right_cancel(p: PromptState)
    ensures
        0 < p.cursor <= p.buffer.len() ==> moved_right(moved_left(p)) == p,
        p.cursor < p.buffer.len() ==> moved_left(moved_right(p)) == p,
{
}

/// The text before the cursor and the text from the cursor on make up the
/// buffer, and cutting at the cursor keeps exactly the text before it.
pub proof fn law_cursor_splits_buffer(p: PromptState)
    requires
        in_bounds(p),
    ensures
        p.buffer.take(p.cursor as int) + p.buffer.skip(p.cursor as int) == p.buffer,
        cut_at_cursor(p).buffer == p.buffer.take(p.cursor as int),
        cut_at_cursor(p).cursor == p.cursor,
{
    assert(p.buffer.take(p.cursor as int) + p.buffer.skip(p.cursor as int) =~= p.buffer);
    assert(p.buffer.take(p.buffer.len() as int) =~= p.buffer);
}

/// Moving a word right first crosses a run of whitespace, then a run of
/// other characters, and stops at the end of the buffer or on the
/// whitespace that follows the word.
pub proof fn law_word_right_crosses_one_word(p: PromptState)
    requires
        in_bounds(p),
    ensures
        ({
            let b = p.buffer;
            let m = advance(b, p.cursor as int, true);
            let r = word_right(p).cursor as int;
            &&& p.cursor <= m <= r <= b.len()
            &&& forall|k: int| p.cursor <= k < m ==> is_white_space(#[trigger] b[k])
            &&& forall|k: int| m <= k < r ==> !is_white_space(#[trigger] b[k])
            &&& r < b.len() ==> is_white_space(b[r])
            &&& word_right(p).buffer == b
        }),
{
    let m = advance(p.buffer, p.cursor as int, true);
    lemma_advance(p.buffer, p.cursor as int, true);
    lemma_advance(p.buffer, m, false);
}

/// Moving a word left first crosses a run of whitespace, then a run of
/// other characters (looking at the character under the cursor), and stops
/// at the start of the buffer or on whitespace.
pub proof fn law_word_left_crosses_one_word(p: PromptState)
    ensures
        ({
            let b = p.buffer;
            let m = retreat(b, p.cursor as int, true);
            let r = word_left(p).cursor as int;
            &&& 0 <= r <= m <= p.cursor
            &&& forall|k: int| m < k <= p.cursor ==> is_white_space(#[trigger] char_at(b, k))
            &&& forall|k: int| r < k <= m ==> !is_white_space(#[trigger] char_at(b, k))
            &&& r > 0 ==> is_white_space(char_at(b, r))
            &&& word_left(p).buffer == b
        }),
{
    let m = retreat(p.buffer, p.cursor as int, true);
    lemma_retreat(p.buffer, p.cursor as int, true);
    lemma_retreat(p.buffer, m, false);
}

} // verus!
