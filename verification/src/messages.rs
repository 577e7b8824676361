//! The message pager: the session's messages joined into one text, wrapped
//! to the pager's width, scrolled like `less`, with whole rows selected and
//! copied.
use vstd::prelude::*;

use crate::canvas::{rect, Rect};
use crate::keys::{KeyCode, KeyEvent};
use crate::text::{append_text, chars_of, push_char, str_eq, string_of};
use vstd::utf8::{decode_utf8, encode_scalar, encode_utf8, is_char_boundary};

verus! {

/// The number of terminal columns `unicode-width` gives a character; `None`
/// for a control character.
pub uninterp spec fn char_columns(c: char) -> Option<usize>;

/// Measures a character with `UnicodeWidthChar::width`; the width is named
/// `char_columns`.
#[verifier::external_body]
fn char_width(c: char) -> (r: Option<usize>)
    ensures
        r == char_columns(c),
{
    unicode_width::UnicodeWidthChar::width(c)
}

/// The columns a character takes in the pager: four for a tab, none for a
/// control character.
pub open spec fn columns(c: char) -> int {
    if c == '\t' {
        4
    } else {
        match char_columns(c) {
            Some(w) => w as int,
            None => 0,
        }
    }
}

/// What the pager shows for a character: four spaces for a tab.
pub open spec fn shown(c: char) -> Seq<char> {
    if c == '\t' {
        seq![' ', ' ', ' ', ' ']
    } else {
        seq![c]
    }
}

/// One screen row of the pager: its text, and the bytes of the source that
/// copying it takes, as UTF-8 offsets (a row that ends a line takes the line
/// break too).
#[derive(Clone, Debug)]
pub struct WrappedRow {
    pub text: String,
    pub source_start: usize,
    pub source_end_for_copy: usize,
}

/// A row as text, start and end.
pub open spec fn row_view(r: WrappedRow) -> (Seq<char>, int, int) {
    (r.text@, r.source_start as int, r.source_end_for_copy as int)
}

/// Rows as texts, starts and ends.
pub open spec fn rows_view(rows: Seq<WrappedRow>) -> Seq<(Seq<char>, int, int)> {
    rows.map_values(|r: WrappedRow| row_view(r))
}

/// Where the character at index `i` of `s` starts in the UTF-8 encoding of
/// `s`.
pub open spec fn byte_pos(s: Seq<char>, i: int) -> int {
    encode_utf8(s.take(i)).len() as int
}

/// Rows whose starts and ends are character indices of `s`, with the
/// indices turned into UTF-8 byte offsets.
pub open spec fn in_bytes(s: Seq<char>, rows: Seq<(Seq<char>, int, int)>) -> Seq<(Seq<char>, int, int)> {
    rows.map_values(|r: (Seq<char>, int, int)| (r.0, byte_pos(s, r.1), byte_pos(s, r.2)))
}

/// The encoding of two texts one after the other is the one encoding after
/// the other.
pub proof fn lemma_encode_concat(a: Seq<char>, b: Seq<char>)
    ensures
        encode_utf8(a + b) == encode_utf8(a) + encode_utf8(b),
    decreases a.len(),
{
    if a.len() == 0 {
        assert(a + b =~= b);
        assert(encode_utf8(a) =~= Seq::<u8>::empty());
        assert(encode_utf8(a) + encode_utf8(b) =~= encode_utf8(b));
    } else {
        assert((a + b).drop_first() =~= a.drop_first() + b);
        assert((a + b)[0] == a[0]);
        lemma_encode_concat(a.drop_first(), b);
        assert(encode_utf8(a + b) =~= encode_scalar(a[0] as u32) + (encode_utf8(a.drop_first()) + encode_utf8(b)));
    }
}

/// One more character adds its encoding's length.
proof fn lemma_byte_pos_next(s: Seq<char>, i: int)
    requires
        0 <= i < s.len(),
    ensures
        byte_pos(s, i + 1) == byte_pos(s, i) + encode_scalar(s[i] as u32).len(),
{
    assert(s.take(i + 1) =~= s.take(i) + seq![s[i]]);
    lemma_encode_concat(s.take(i), seq![s[i]]);
    assert(seq![s[i]].drop_first() =~= Seq::<char>::empty());
    assert(encode_utf8(seq![s[i]]) =~= encode_scalar(s[i] as u32) + encode_utf8(Seq::<char>::empty()));
}

/// The number of bytes of the UTF-8 encoding of a character.
fn utf8_width(c: char) -> (n: usize)
    ensures
        n == encode_scalar(c as u32).len(),
        1 <= n <= 4,
{
    proof {
        vstd::utf8::char_is_scalar(c);
    }
    let v = c as u32;
    if v <= 0x7F {
        1
    } else if v <= 0x7FF {
        2
    } else if v <= 0xFFFF {
        3
    } else {
        4
    }
}

/// The UTF-8 offset of every character of `chars`, and of its end.
fn byte_offsets(chars: &Vec<char>) -> (offs: Vec<usize>)
    requires
        encode_utf8(chars@).len() <= usize::MAX,
    ensures
        offs@.len() == chars@.len() + 1,
        forall|i: int| 0 <= i <= chars@.len() ==> #[trigger] offs@[i] == byte_pos(chars@, i),
{
    let mut offs: Vec<usize> = Vec::new();
    let mut at: usize = 0;
    offs.push(0);
    proof {
        assert(chars@.take(0) =~= Seq::<char>::empty());
    }
    let mut i: usize = 0;
    while i < chars.len()
        invariant
            i <= chars@.len(),
            offs@.len() == i + 1,
            encode_utf8(chars@).len() <= usize::MAX,
            at == byte_pos(chars@, i as int),
            forall|q: int| 0 <= q <= i ==> #[trigger] offs@[q] == byte_pos(chars@, q),
        decreases chars@.len() - i,
    {
        proof {
            lemma_byte_pos_next(chars@, i as int);
            assert(chars@ =~= chars@.take(i + 1) + chars@.skip(i + 1));
            lemma_encode_concat(chars@.take(i + 1), chars@.skip(i + 1));
        }
        at = at + utf8_width(chars[i]);
        offs.push(at);
        i = i + 1;
    }
    offs
}

/// The finished rows, the text, the columns and the start of the open row
/// after the first `n` characters of a line that starts at `base`: a
/// character that would overflow a non-empty row starts a new one.
pub open spec fn wrap_prefix(line: Seq<char>, n: int, width: int, base: int) -> (
    Seq<(Seq<char>, int, int)>,
    Seq<char>,
    int,
    int,
)
    decreases n,
{
    if n <= 0 {
        (Seq::empty(), Seq::empty(), 0, base)
    } else {
        let prev = wrap_prefix(line, n - 1, width, base);
        let c = line[n - 1];
        if prev.2 > 0 && prev.2 + columns(c) > width {
            (prev.0.push((prev.1, prev.3, base + n - 1)), shown(c), columns(c), base + n - 1)
        } else {
            (prev.0, prev.1 + shown(c), prev.2 + columns(c), prev.3)
        }
    }
}

/// The rows of a line that starts at `base` and whose segment ends at `end`.
pub open spec fn line_rows(line: Seq<char>, width: int, base: int, end: int) -> Seq<(Seq<char>, int, int)> {
    let st = wrap_prefix(line, line.len() as int, width, base);
    st.0.push((st.1, st.3, end))
}

/// Where the segment that starts at `from` ends: just after its line break,
/// or at the end of the text.
pub open spec fn segment_end(s: Seq<char>, from: int) -> int
    decreases s.len() - from,
{
    if from >= s.len() {
        s.len() as int
    } else if s[from] == '\n' {
        from + 1
    } else {
        segment_end(s, from + 1)
    }
}

/// A segment ends after its start and within the text.
pub proof fn lemma_segment_end(s: Seq<char>, from: int)
    requires
        0 <= from < s.len(),
    ensures
        from < segment_end(s, from) <= s.len(),
    decreases s.len() - from,
{
    if s[from] != '\n' {
        if from + 1 < s.len() {
            lemma_segment_end(s, from + 1);
        } else {
            assert(segment_end(s, from + 1) == s.len());
        }
    }
}

/// Where the text of a segment ends: before its `\n` or `\r\n`.
pub open spec fn content_end(s: Seq<char>, from: int, end: int) -> int {
    if end > from && s[end - 1] == '\n' {
        if end - 2 >= from && s[end - 2] == '\r' {
            end - 2
        } else {
            end - 1
        }
    } else {
        end
    }
}

/// The rows of the segments from `from` on.
pub open spec fn wrap_from(s: Seq<char>, from: int, width: int) -> Seq<(Seq<char>, int, int)>
    decreases s.len() - from,
{
    if from < 0 || from >= s.len() {
        Seq::empty()
    } else {
        let end = segment_end(s, from);
        proof {
            lemma_segment_end(s, from);
        }
        line_rows(s.subrange(from, content_end(s, from, end)), width, from, end) + wrap_from(s, end, width)
    }
}

/// The rows of a text at a width (at least one column): each line wrapped,
/// and an empty last row after a final line break or for an empty text.
pub open spec fn wrapped(s: Seq<char>, width: int) -> Seq<(Seq<char>, int, int)> {
    let w = if width < 1 {
        1
    } else {
        width
    };
    wrap_from(s, 0, w) + if s.len() == 0 || s.last() == '\n' {
        seq![(Seq::<char>::empty(), s.len() as int, s.len() as int)]
    } else {
        Seq::empty()
    }
}

/// Appends the rows of the line `chars[from..to]`, whose segment ends at
/// `end`.
fn wrap_line(
    chars: &Vec<char>,
    offs: &Vec<usize>,
    from: usize,
    to: usize,
    end: usize,
    width: usize,
    rows: &mut Vec<WrappedRow>,
)
    requires
        from <= to <= end <= chars@.len(),
        1 <= width <= u16::MAX,
        offs@.len() == chars@.len() + 1,
        forall|i: int| 0 <= i <= chars@.len() ==> #[trigger] offs@[i] == byte_pos(chars@, i),
    ensures
        rows_view(final(rows)@) == rows_view(old(rows)@) + in_bytes(
            chars@,
            line_rows(chars@.subrange(from as int, to as int), width as int, from as int, end as int),
        ),
{
    let ghost line = chars@.subrange(from as int, to as int);
    let ghost before = rows_view(rows@);
    let mut current = String::new();
    let mut current_width: usize = 0;
    let mut current_start: usize = from;
    let mut k: usize = from;
    while k < to
        invariant
            from <= k <= to <= end <= chars@.len(),
            1 <= width <= u16::MAX,
            line == chars@.subrange(from as int, to as int),
            offs@.len() == chars@.len() + 1,
            forall|i: int| 0 <= i <= chars@.len() ==> #[trigger] offs@[i] == byte_pos(chars@, i),
            from <= current_start <= k,
            rows_view(rows@) == before + in_bytes(chars@, wrap_prefix(line, k - from, width as int, from as int).0),
            current@ == wrap_prefix(line, k - from, width as int, from as int).1,
            current_width == wrap_prefix(line, k - from, width as int, from as int).2,
            current_start == wrap_prefix(line, k - from, width as int, from as int).3,
        decreases to - k,
    {
        let ghost prev = wrap_prefix(line, k - from, width as int, from as int);
        let c = chars[k];
        assert(line[k - from] == c);
        let cw: usize = if c == '\t' {
            4
        } else {
            match char_width(c) {
                Some(w) => w,
                None => 0,
            }
        };
        assert(cw == columns(c));
        if current_width > 0 && current_width.saturating_add(cw) > width {
            let row = WrappedRow { text: current, source_start: offs[current_start], source_end_for_copy: offs[k] };
            let ghost b = rows_view(rows@);
            rows.push(row);
            proof {
                assert(rows_view(rows@) =~= b.push(row_view(row)));
                assert(in_bytes(chars@, prev.0.push((prev.1, prev.3, k as int))) =~= in_bytes(chars@, prev.0).push(
                    (prev.1, byte_pos(chars@, prev.3), byte_pos(chars@, k as int)),
                ));
            }
            current = String::new();
            current_width = 0;
            current_start = k;
        }
        if c == '\t' {
            push_char(&mut current, ' ');
            push_char(&mut current, ' ');
            push_char(&mut current, ' ');
            push_char(&mut current, ' ');
        } else {
            push_char(&mut current, c);
        }
        current_width = current_width + cw;
        k = k + 1;
        proof {
            let next = wrap_prefix(line, k - from, width as int, from as int);
            assert(current@ =~= next.1);
            assert(rows_view(rows@) =~= before + in_bytes(chars@, next.0));
        }
    }
    assert(line.len() == to - from);
    let last = WrappedRow { text: current, source_start: offs[current_start], source_end_for_copy: offs[end] };
    let ghost b = rows_view(rows@);
    rows.push(last);
    proof {
        let st = wrap_prefix(line, line.len() as int, width as int, from as int);
        assert(rows_view(rows@) =~= b.push(row_view(last)));
        assert(in_bytes(chars@, st.0.push((st.1, st.3, end as int))) =~= in_bytes(chars@, st.0).push(
            (st.1, byte_pos(chars@, st.3), byte_pos(chars@, end as int)),
        ));
    }
}

/// The rows of `source` at `width` columns (at least one): long lines break
/// before the character that would overflow a non-empty row, tabs show as
/// four spaces, and each row knows the characters of `source` it copies.
pub fn wrapped_rows(source: &str, width: u16) -> (r: Vec<WrappedRow>)
    requires
        encode_utf8(source@).len() <= usize::MAX,
    ensures
        rows_view(r@) == in_bytes(source@, wrapped(source@, width as int)),
{
    let chars = chars_of(source);
    let offs = byte_offsets(&chars);
    let w: usize = if width == 0 {
        1
    } else {
        width as usize
    };
    let n = chars.len();
    let mut rows: Vec<WrappedRow> = Vec::new();
    let mut pos: usize = 0;
    while pos < n
        invariant
            pos <= n == chars@.len(),
            1 <= w <= u16::MAX,
            offs@.len() == chars@.len() + 1,
            forall|i: int| 0 <= i <= chars@.len() ==> #[trigger] offs@[i] == byte_pos(chars@, i),
            rows_view(rows@) + in_bytes(chars@, wrap_from(chars@, pos as int, w as int)) == in_bytes(
                chars@,
                wrap_from(chars@, 0, w as int),
            ),
        decreases n - pos,
    {
        let mut end = pos;
        while end < n && chars[end] != '\n'
            invariant
                pos <= end <= n == chars@.len(),
                segment_end(chars@, end as int) == segment_end(chars@, pos as int),
            decreases n - end,
        {
            end = end + 1;
        }
        let seg_end = if end < n {
            end + 1
        } else {
            end
        };
        assert(seg_end == segment_end(chars@, pos as int));
        let cend = if seg_end > pos && chars[seg_end - 1] == '\n' {
            if seg_end - pos >= 2 && chars[seg_end - 2] == '\r' {
                seg_end - 2
            } else {
                seg_end - 1
            }
        } else {
            seg_end
        };
        assert(cend == content_end(chars@, pos as int, seg_end as int));
        let ghost before = rows_view(rows@);
        wrap_line(&chars, &offs, pos, cend, seg_end, w, &mut rows);
        proof {
            let here = line_rows(chars@.subrange(pos as int, cend as int), w as int, pos as int, seg_end as int);
            let rest = wrap_from(chars@, seg_end as int, w as int);
            assert(wrap_from(chars@, pos as int, w as int) == here + rest);
            assert(in_bytes(chars@, here + rest) =~= in_bytes(chars@, here) + in_bytes(chars@, rest));
            assert(rows_view(rows@) + in_bytes(chars@, rest) =~= before + in_bytes(chars@, here + rest));
        }
        pos = seg_end;
    }
    proof {
        assert(chars@ == source@);
        assert(wrap_from(chars@, n as int, w as int) =~= Seq::empty());
        assert(in_bytes(chars@, Seq::<(Seq<char>, int, int)>::empty()) =~= Seq::<(Seq<char>, int, int)>::empty());
        assert(rows_view(rows@) =~= in_bytes(chars@, wrap_from(chars@, 0, w as int)));
    }
    let ghost body = wrap_from(chars@, 0, w as int);
    if n == 0 || chars[n - 1] == '\n' {
        let row = WrappedRow { text: String::new(), source_start: offs[n], source_end_for_copy: offs[n] };
        let ghost b = rows_view(rows@);
        rows.push(row);
        proof {
            assert(rows_view(rows@) =~= b.push(row_view(row)));
            let tail = seq![(Seq::<char>::empty(), n as int, n as int)];
            assert(in_bytes(chars@, body + tail) =~= in_bytes(chars@, body) + in_bytes(chars@, tail));
            assert(rows_view(rows@) =~= in_bytes(source@, wrapped(source@, width as int)));
        }
    } else {
        proof {
            assert(body + Seq::<(Seq<char>, int, int)>::empty() =~= body);
        }
    }
    rows
}

/// The rows selected in the pager, from the row where the selection began
/// to the row its cursor is on.
#[derive(Clone, Copy, Debug, PartialEq, Eq, Structural)]
pub struct LineSelection {
    pub anchor: usize,
    pub cursor: usize,
}

/// What a key asks of the viewer around the pager.
#[derive(Clone, Debug, PartialEq, Eq)]
pub enum MessageAction {
    Handled,
    Close,
    Copy(String),
}

/// The pager over the session's messages: the text, the rows it was last
/// wrapped into, how far it is scrolled, whether it follows new messages,
/// the selected rows and a notice for the title.
pub struct MessageViewState {
    pub source: String,
    pub vertical_offset: u16,
    pub content_rows: usize,
    pub viewport_rows: usize,
    pub follow_tail: bool,
    pub wrap_width: u16,
    pub wrapped_rows: Vec<WrappedRow>,
    pub selection: Option<LineSelection>,
    pub notice: Option<String>,
}

/// The messages as one text, one per line, or a placeholder for none.
pub open spec fn joined(messages: Seq<Seq<char>>) -> Seq<char>
    decreases messages.len(),
{
    if messages.len() == 0 {
        Seq::empty()
    } else if messages.len() == 1 {
        messages[0]
    } else {
        joined(messages.drop_last()) + seq!['\n'] + messages.last()
    }
}

/// The placeholder shown when there is no message.
pub open spec fn no_messages_text() -> Seq<char> {
    seq!['N', 'o', ' ', 'm', 'e', 's', 's', 'a', 'g', 'e', 's', '.']
}

/// The text of the pager for a list of messages.
pub open spec fn source_of(messages: Seq<String>) -> Seq<char> {
    if messages.len() == 0 {
        no_messages_text()
    } else {
        joined(messages.map_values(|m: String| m@))
    }
}

/// The text of the pager: the messages one per line, or "No messages.".
pub fn message_source(messages: &[String]) -> (r: String)
    ensures
        r@ == source_of(messages@),
{
    if messages.len() == 0 {
        let r = String::from_str("No messages.");
        proof {
            reveal_strlit("No messages.");
        }
        return r;
    }
    let ghost texts = messages@.map_values(|m: String| m@);
    let mut out = String::new();
    let mut i: usize = 0;
    while i < messages.len()
        invariant
            i <= messages@.len(),
            messages@.len() > 0,
            texts == messages@.map_values(|m: String| m@),
            out@ == joined(texts.take(i as int)),
        decreases messages@.len() - i,
    {
        if i > 0 {
            push_char(&mut out, '\n');
        }
        out = append_text(out, messages[i].as_str());
        proof {
            let t = texts.take(i + 1);
            assert(t.drop_last() =~= texts.take(i as int));
            assert(t.last() == messages@[i as int]@);
            if i == 0 {
                assert(joined(texts.take(0)) =~= Seq::<char>::empty());
                assert(t.len() == 1);
            }
        }
        i = i + 1;
    }
    assert(texts.take(messages@.len() as int) =~= texts);
    out
}

/// The pager's area: at most fifteen rows, above the bottom row of the
/// screen.
pub open spec fn message_area_of(screen: Rect) -> Rect {
    let available = if screen.height >= 1 {
        screen.height - 1
    } else {
        0
    };
    let height = if available < 15 {
        available
    } else {
        15
    };
    rect(screen.x, (screen.y + available - height) as u16, screen.width, height as u16)
}

/// The pager's area: at most fifteen rows, above the bottom row of the
/// screen.
pub fn message_area(screen: Rect) -> (r: Rect)
    requires
        screen.y + screen.height <= u16::MAX,
    ensures
        r == message_area_of(screen),
{
    let available = screen.height.saturating_sub(1);
    let height = if available < 15 {
        available
    } else {
        15
    };
    Rect::new(screen.x, screen.y + (available - height), screen.width, height)
}

/// `x` held to the range of `u16`.
pub open spec fn cap16(x: int) -> int {
    if x > u16::MAX {
        u16::MAX as int
    } else {
        x
    }
}

/// `a - b`, or 0 below.
pub open spec fn minus(a: int, b: int) -> int {
    if a > b {
        a - b
    } else {
        0
    }
}

/// The smaller of two numbers.
pub open spec fn least(a: int, b: int) -> int {
    if a < b {
        a
    } else {
        b
    }
}

/// The larger of two numbers.
pub open spec fn most(a: int, b: int) -> int {
    if a > b {
        a
    } else {
        b
    }
}

/// How far the pager can scroll: the rows that do not fit.
pub open spec fn max_offset_of(v: MessageViewState) -> int {
    cap16(minus(v.content_rows as int, v.viewport_rows as int))
}

/// The pager with another offset and tail-following.
pub open spec fn scrolled_to(v: MessageViewState, offset: int, follow: bool) -> MessageViewState {
    MessageViewState { vertical_offset: offset as u16, follow_tail: follow, ..v }
}

/// Scrolled down by `rows`, no further than the end; following the tail
/// when at the end.
pub open spec fn scrolled_down(v: MessageViewState, rows: int) -> MessageViewState {
    let off = least(cap16(v.vertical_offset + rows), max_offset_of(v));
    scrolled_to(v, off, off >= max_offset_of(v))
}

/// Scrolled up by `rows`, no further than the top; not following the tail.
pub open spec fn scrolled_up(v: MessageViewState, rows: int) -> MessageViewState {
    scrolled_to(v, minus(v.vertical_offset as int, rows), false)
}

/// The rows a page scrolls: one less than the viewport, at least one.
pub open spec fn page_rows_of(v: MessageViewState) -> int {
    cap16(most(minus(v.viewport_rows as int, 1), 1))
}

/// The rows half a page scrolls: half the viewport rounded up, at least one.
pub open spec fn half_page_rows_of(v: MessageViewState) -> int {
    cap16(most((v.viewport_rows as int + 1) / 2, 1))
}

/// The last row in view, if there is a row.
pub open spec fn active_row_of(v: MessageViewState) -> Option<int> {
    if v.wrapped_rows@.len() == 0 {
        None
    } else {
        Some(least(v.vertical_offset + minus(v.viewport_rows as int, 1), v.wrapped_rows@.len() - 1))
    }
}

/// The selection turned off, or on at the last row in view; the notice
/// cleared.
pub open spec fn toggled(v: MessageViewState) -> MessageViewState {
    let selection = if v.selection is Some {
        None
    } else {
        match active_row_of(v) {
            Some(row) => Some(LineSelection { anchor: row as usize, cursor: row as usize }),
            None => None,
        }
    };
    MessageViewState { selection, notice: None, ..v }
}

/// Scrolled so that the selection's cursor is in view, no further than the
/// end; following the tail when at the end.
pub open spec fn cursor_shown(v: MessageViewState) -> MessageViewState {
    match v.selection {
        None => v,
        Some(sel) => {
            let start = v.vertical_offset as int;
            let end = least(start + minus(v.viewport_rows as int, 1), minus(v.wrapped_rows@.len() as int, 1));
            let off = if sel.cursor < start {
                cap16(sel.cursor as int)
            } else if sel.cursor > end {
                cap16(minus(sel.cursor + 1, v.viewport_rows as int))
            } else {
                start
            };
            let off2 = least(off, max_offset_of(v));
            scrolled_to(v, off2, off2 >= max_offset_of(v))
        },
    }
}

/// The selection's cursor moved to `row`, within the rows, and shown.
pub open spec fn cursor_moved_to(v: MessageViewState, row: int) -> MessageViewState {
    match v.selection {
        None => v,
        Some(sel) => {
            let cursor = least(row, minus(v.wrapped_rows@.len() as int, 1));
            cursor_shown(
                MessageViewState {
                    selection: Some(LineSelection { anchor: sel.anchor, cursor: cursor as usize }),
                    ..v
                },
            )
        },
    }
}

/// The selection's cursor moved by `rows`, down or up, within the rows,
/// and shown.
pub open spec fn cursor_moved(v: MessageViewState, rows: int, forward: bool) -> MessageViewState {
    match v.selection {
        None => v,
        Some(sel) => cursor_moved_to(
            v,
            if forward {
                sel.cursor + rows
            } else {
                minus(sel.cursor as int, rows)
            },
        ),
    }
}

/// The first and last selected rows.
pub open spec fn bounds_of(v: MessageViewState) -> Option<(int, int)> {
    match v.selection {
        None => None,
        Some(sel) => if sel.anchor <= sel.cursor {
            Some((sel.anchor as int, sel.cursor as int))
        } else {
            Some((sel.cursor as int, sel.anchor as int))
        },
    }
}

/// The text the selected rows copy: the bytes of the text from the start
/// of the first to the copy end of the last; `None` without a selection or
/// when those offsets are not in order on character boundaries.
pub open spec fn selected_text_of(v: MessageViewState) -> Option<Seq<char>> {
    match bounds_of(v) {
        None => None,
        Some((lo, hi)) => if hi < v.wrapped_rows@.len() {
            let start = v.wrapped_rows@[lo].source_start as int;
            let end = v.wrapped_rows@[hi].source_end_for_copy as int;
            let bytes = encode_utf8(v.source@);
            if start <= end && is_char_boundary(bytes, start) && is_char_boundary(bytes, end) {
                Some(decode_utf8(bytes.subrange(start, end)))
            } else {
                None
            }
        } else {
            None
        },
    }
}

/// An offset that is a boundary of a text and not before `start`, also a
/// boundary of the text from `start` on.
proof fn lemma_boundary_in_rest(bytes: Seq<u8>, start: int, end: int)
    requires
        vstd::utf8::valid_utf8(bytes),
        0 <= start <= end,
        is_char_boundary(bytes, start),
        is_char_boundary(bytes, end),
    ensures
        vstd::utf8::valid_utf8(bytes.subrange(start, bytes.len() as int)),
        is_char_boundary(bytes.subrange(start, bytes.len() as int), end - start),
{
    vstd::utf8::valid_utf8_split(bytes, start);
    let rest = bytes.subrange(start, bytes.len() as int);
    if end > bytes.len() {
        assert(!is_char_boundary(bytes, end));
    } else if end == bytes.len() {
        vstd::utf8::is_char_boundary_start_end_of_seq(rest);
        assert(rest.len() == end - start);
    } else {
        vstd::utf8::is_char_boundary_iff_not_is_continuation_byte(bytes, end);
        assert(rest[end - start] == bytes[end]);
        vstd::utf8::is_char_boundary_iff_not_is_continuation_byte(rest, end - start);
    }
}

/// The notice shown when `y` finds nothing to copy.
pub open spec fn nothing_selected_text() -> Seq<char> {
    seq!['n', 'o', 't', 'h', 'i', 'n', 'g', ' ', 's', 'e', 'l', 'e', 'c', 't', 'e', 'd']
}

/// What `y` copies: a non-empty selected text.
pub open spec fn copied(v: MessageViewState) -> Option<Seq<char>> {
    match selected_text_of(v) {
        Some(t) => if t.len() > 0 {
            Some(t)
        } else {
            None
        },
        None => None,
    }
}

/// Whether a key is `c` with no modifier.
pub open spec fn plain(key: KeyEvent, c: char) -> bool {
    key.code == KeyCode::Char(c) && key.modifiers.is_none()
}

/// Whether a key closes the pager: `q` or Esc with no modifier.
pub open spec fn closes(key: KeyEvent) -> bool {
    (plain(key, 'q') || key.code == KeyCode::Esc) && key.modifiers.is_none()
}

/// Whether a key toggles the selection: `V`, or shift and `v`.
pub open spec fn toggles(key: KeyEvent) -> bool {
    (key.code == KeyCode::Char('V') && (key.modifiers.is_none() || key.modifiers.is_shift())) || (key.code
        == KeyCode::Char('v') && key.modifiers.is_shift())
}

/// What a key does to the pager, apart from the notice that `y` leaves when
/// there is nothing to copy: the notice is cleared, and scrolling keys move
/// the selection's cursor while there is a selection.
pub open spec fn pager_after(v0: MessageViewState, key: KeyEvent) -> MessageViewState {
    let v = MessageViewState { notice: None, ..v0 };
    let selecting = v.selection is Some;
    let none = key.modifiers.is_none();
    if closes(key) {
        v
    } else if toggles(key) {
        toggled(v)
    } else if plain(key, 'y') {
        match copied(v) {
            Some(t) => MessageViewState { selection: None, ..v },
            None => v,
        }
    } else if (plain(key, 'j') || key.code == KeyCode::Down) && none {
        if selecting { cursor_moved(v, 1, true) } else { scrolled_down(v, 1) }
    } else if (plain(key, 'k') || key.code == KeyCode::Up) && none {
        if selecting { cursor_moved(v, 1, false) } else { scrolled_up(v, 1) }
    } else if (plain(key, 'f') || plain(key, ' ') || key.code == KeyCode::PageDown) && none {
        if selecting { cursor_moved(v, page_rows_of(v), true) } else { scrolled_down(v, page_rows_of(v)) }
    } else if (plain(key, 'b') || key.code == KeyCode::PageUp) && none {
        if selecting { cursor_moved(v, page_rows_of(v), false) } else { scrolled_up(v, page_rows_of(v)) }
    } else if key.code == KeyCode::Char('d') && key.modifiers.is_control() {
        if selecting { cursor_moved(v, half_page_rows_of(v), true) } else { scrolled_down(v, half_page_rows_of(v)) }
    } else if key.code == KeyCode::Char('u') && key.modifiers.is_control() {
        if selecting { cursor_moved(v, half_page_rows_of(v), false) } else { scrolled_up(v, half_page_rows_of(v)) }
    } else if (plain(key, 'g') || key.code == KeyCode::Home) && none {
        if selecting { cursor_moved_to(v, 0) } else { scrolled_to(v, 0, false) }
    } else if (key.code == KeyCode::Char('G') && (none || key.modifiers.is_shift())) || key.code == KeyCode::End {
        if selecting {
            cursor_moved_to(v, minus(v.wrapped_rows@.len() as int, 1))
        } else {
            scrolled_to(v, max_offset_of(v), true)
        }
    } else {
        v
    }
}

/// The pager laid out again: the new rows and viewport; the selection
/// dropped when the width changed from one it had; scrolled to the end
/// when following the tail, else kept within the new end.
pub open spec fn laid_out(v: MessageViewState, rows: Vec<WrappedRow>, width: u16, viewport: usize) -> MessageViewState {
    let selection = if v.wrap_width != 0 && v.wrap_width != width {
        None
    } else {
        v.selection
    };
    let w = MessageViewState {
        wrap_width: width,
        wrapped_rows: rows,
        content_rows: rows@.len() as usize,
        viewport_rows: viewport,
        selection,
        ..v
    };
    let off = if v.follow_tail {
        max_offset_of(w)
    } else {
        least(v.vertical_offset as int, max_offset_of(w))
    };
    MessageViewState { vertical_offset: off as u16, ..w }
}

/// The title of the pager: the notice if there is one, else the keys that
/// apply.
pub open spec fn title_of(v: MessageViewState) -> Seq<char> {
    match v.notice {
        Some(n) => " Messages · "@ + n@ + " · V select · q close "@,
        None => if v.selection is Some {
            " Messages · LINE SELECT · j/k extend · y copy · V cancel · q close "@
        } else {
            " Messages · j/k scroll · Space/b page · g/G ends · V select · q close "@
        },
    }
}

impl MessageViewState {
    /// A pager over `messages`, not laid out yet, following the tail.
    pub fn from_messages(messages: &[String]) -> (r: Self)
        ensures
            r.source@ == source_of(messages@),
            r.vertical_offset == 0,
            r.content_rows == 0,
            r.viewport_rows == 0,
            r.follow_tail,
            r.wrap_width == 0,
            r.wrapped_rows@.len() == 0,
            r.selection is None,
            r.notice is None,
    {
        MessageViewState {
            source: message_source(messages),
            vertical_offset: 0,
            content_rows: 0,
            viewport_rows: 0,
            follow_tail: true,
            wrap_width: 0,
            wrapped_rows: Vec::new(),
            selection: None,
            notice: None,
        }
    }

    /// Takes the current messages: when the text changed, it follows the
    /// tail if it was at the end, and drops the selection and the notice.
    pub fn sync(&mut self, messages: &[String])
        ensures
            old(self).source@ == source_of(messages@) ==> *final(self) == *old(self),
            old(self).source@ != source_of(messages@) ==> {
                &&& final(self).source@ == source_of(messages@)
                &&& *final(self) == (MessageViewState {
                    source: final(self).source,
                    follow_tail: old(self).vertical_offset >= max_offset_of(*old(self)),
                    selection: None,
                    notice: None,
                    ..*old(self)
                })
            },
    {
        let source = message_source(messages);
        if !str_eq(self.source.as_str(), source.as_str()) {
            self.follow_tail = self.is_at_bottom();
            self.source = source;
            self.selection = None;
            self.notice = None;
        }
    }

    /// Takes the rows the pager was wrapped into at `wrap_width`, and the
    /// rows it shows.
    pub fn prepare_layout(&mut self, wrapped_rows: Vec<WrappedRow>, wrap_width: u16, viewport_rows: usize)
        ensures
            *final(self) == laid_out(*old(self), wrapped_rows, wrap_width, viewport_rows),
    {
        if self.wrap_width != 0 && self.wrap_width != wrap_width {
            self.selection = None;
        }
        self.wrap_width = wrap_width;
        self.wrapped_rows = wrapped_rows;
        self.content_rows = self.wrapped_rows.len();
        self.viewport_rows = viewport_rows;
        let m = self.max_offset();
        if self.follow_tail {
            self.vertical_offset = m;
        } else if self.vertical_offset > m {
            self.vertical_offset = m;
        }
    }

    /// How far the pager can scroll.
    pub fn max_offset(&self) -> (r: u16)
        ensures
            r == max_offset_of(*self),
    {
        let d = self.content_rows.saturating_sub(self.viewport_rows);
        if d > 65535 {
            65535
        } else {
            d as u16
        }
    }

    /// Whether the pager shows its last rows.
    pub fn is_at_bottom(&self) -> (r: bool)
        ensures
            r == (self.vertical_offset >= max_offset_of(*self)),
    {
        self.vertical_offset >= self.max_offset()
    }

    fn scroll_down(&mut self, rows: u16)
        ensures
            *final(self) == scrolled_down(*old(self), rows as int),
    {
        let off = self.vertical_offset.saturating_add(rows);
        let m = self.max_offset();
        self.vertical_offset = if off < m {
            off
        } else {
            m
        };
        self.follow_tail = self.vertical_offset >= m;
    }

    fn scroll_up(&mut self, rows: u16)
        ensures
            *final(self) == scrolled_up(*old(self), rows as int),
    {
        self.vertical_offset = self.vertical_offset.saturating_sub(rows);
        self.follow_tail = false;
    }

    fn page_rows(&self) -> (r: u16)
        ensures
            r == page_rows_of(*self),
    {
        let r = self.viewport_rows.saturating_sub(1);
        let r = if r < 1 {
            1
        } else {
            r
        };
        if r > 65535 {
            65535
        } else {
            r as u16
        }
    }

    fn half_page_rows(&self) -> (r: u16)
        ensures
            r == half_page_rows_of(*self),
    {
        let r = self.viewport_rows / 2 + self.viewport_rows % 2;
        let r = if r < 1 {
            1
        } else {
            r
        };
        if r > 65535 {
            65535
        } else {
            r as u16
        }
    }

    fn scroll_to_top(&mut self)
        ensures
            *final(self) == scrolled_to(*old(self), 0, false),
    {
        self.vertical_offset = 0;
        self.follow_tail = false;
    }

    fn scroll_to_bottom(&mut self)
        ensures
            *final(self) == scrolled_to(*old(self), max_offset_of(*old(self)), true),
    {
        self.vertical_offset = self.max_offset();
        self.follow_tail = true;
    }

    fn toggle_line_selection(&mut self)
        ensures
            *final(self) == toggled(*old(self)),
    {
        self.notice = None;
        if self.selection.is_some() {
            self.selection = None;
            return;
        }
        if let Some(active_row) = self.active_row() {
            self.selection = Some(LineSelection { anchor: active_row, cursor: active_row });
        }
    }

    /// The last row in view, if there is a row.
    pub fn active_row(&self) -> (r: Option<usize>)
        ensures
            match r {
                Some(row) => active_row_of(*self) == Some(row as int),
                None => active_row_of(*self) is None,
            },
    {
        if self.wrapped_rows.len() == 0 {
            return None;
        }
        let a = (self.vertical_offset as usize).saturating_add(self.viewport_rows.saturating_sub(1));
        let last = self.wrapped_rows.len() - 1;
        Some(
            if a < last {
                a
            } else {
                last
            },
        )
    }

    fn move_selection(&mut self, rows: u16, forward: bool)
        ensures
            *final(self) == cursor_moved(*old(self), rows as int, forward),
    {
        match self.selection {
            None => {},
            Some(sel) => {
                let target = if forward {
                    sel.cursor.saturating_add(rows as usize)
                } else {
                    sel.cursor.saturating_sub(rows as usize)
                };
                let count = self.wrapped_rows.len();
                proof {
                    let v = *self;
                    let row = if forward {
                        sel.cursor + rows
                    } else {
                        minus(sel.cursor as int, rows as int)
                    };
                    let last = minus(v.wrapped_rows@.len() as int, 1);
                    assert(least(target as int, last) == least(row, last));
                    assert(cursor_moved_to(v, target as int) == cursor_moved_to(v, row));
                }
                self.move_selection_to(target);
            },
        }
    }

    fn move_selection_to(&mut self, row: usize)
        ensures
            *final(self) == cursor_moved_to(*old(self), row as int),
    {
        match self.selection {
            None => {},
            Some(sel) => {
                let last = self.wrapped_rows.len().saturating_sub(1);
                let cursor = if row < last {
                    row
                } else {
                    last
                };
                self.selection = Some(LineSelection { anchor: sel.anchor, cursor });
                self.ensure_selection_cursor_visible();
            },
        }
    }

    fn ensure_selection_cursor_visible(&mut self)
        ensures
            *final(self) == cursor_shown(*old(self)),
    {
        match self.selection {
            None => {},
            Some(sel) => {
                let start = self.vertical_offset as usize;
                let a = start.saturating_add(self.viewport_rows.saturating_sub(1));
                let b = self.wrapped_rows.len().saturating_sub(1);
                let end = if a < b {
                    a
                } else {
                    b
                };
                let mut off = self.vertical_offset;
                if sel.cursor < start {
                    off = sel.cursor as u16;
                } else if sel.cursor > end {
                    let t = sel.cursor.saturating_add(1).saturating_sub(self.viewport_rows);
                    off = if t > 65535 {
                        65535
                    } else {
                        t as u16
                    };
                }
                let m = self.max_offset();
                if off > m {
                    off = m;
                }
                self.vertical_offset = off;
                self.follow_tail = off >= m;
            },
        }
    }

    /// The first and last selected rows.
    pub fn selection_bounds(&self) -> (r: Option<(usize, usize)>)
        ensures
            match r {
                Some((lo, hi)) => bounds_of(*self) == Some((lo as int, hi as int)),
                None => bounds_of(*self) is None,
            },
    {
        match self.selection {
            None => None,
            Some(sel) => if sel.anchor <= sel.cursor {
                Some((sel.anchor, sel.cursor))
            } else {
                Some((sel.cursor, sel.anchor))
            },
        }
    }

    /// Whether a row is selected.
    pub fn is_selected(&self, row: usize) -> (r: bool)
        ensures
            r == match bounds_of(*self) {
                Some((lo, hi)) => lo <= row <= hi,
                None => false,
            },
    {
        match self.selection_bounds() {
            Some((lo, hi)) => lo <= row && row <= hi,
            None => false,
        }
    }

    /// The text the selected rows copy.
    pub fn selected_text(&self) -> (r: Option<String>)
        ensures
            match r {
                Some(t) => selected_text_of(*self) == Some(t@),
                None => selected_text_of(*self) is None,
            },
    {
        let (lo, hi) = match self.selection_bounds() {
            None => return None,
            Some(b) => b,
        };
        if hi >= self.wrapped_rows.len() {
            return None;
        }
        let start = self.wrapped_rows[lo].source_start;
        let end = self.wrapped_rows[hi].source_end_for_copy;
        let text = self.source.as_str();
        if start <= end && text.is_char_boundary(start) && text.is_char_boundary(end) {
            let ghost bytes = encode_utf8(self.source@);
            proof {
                vstd::utf8::encode_utf8_valid_utf8(self.source@);
                lemma_boundary_in_rest(bytes, start as int, end as int);
            }
            let (_, rest) = text.split_at(start);
            let (middle, _) = rest.split_at(end - start);
            proof {
                assert(encode_utf8(middle@) =~= bytes.subrange(start as int, end as int));
                vstd::utf8::encode_utf8_decode_utf8(middle@);
            }
            Some(middle.to_owned())
        } else {
            None
        }
    }

    /// Shows a notice in the title, such as what copying did.
    pub fn set_copy_notice(&mut self, notice: String)
        ensures
            *final(self) == (MessageViewState { notice: Some(notice), ..*old(self) }),
    {
        self.notice = Some(notice);
    }

    /// The title of the pager.
    pub fn title(&self) -> (r: String)
        ensures
            r@ == title_of(*self),
    {
        match &self.notice {
            Some(notice) => {
                let t = String::from_str(" Messages · ");
                let t = append_text(t, notice.as_str());
                append_text(t, " · V select · q close ")
            },
            None => if self.selection.is_some() {
                String::from_str(" Messages · LINE SELECT · j/k extend · y copy · V cancel · q close ")
            } else {
                String::from_str(" Messages · j/k scroll · Space/b page · g/G ends · V select · q close ")
            },
        }
    }
}

/// What a key does in the pager (see `pager_after`) and what it asks of
/// the viewer: to close the pager, or to copy the selected text; `y` with
/// nothing to copy leaves a notice.
pub open spec fn pager_key_done(v0: MessageViewState, v1: MessageViewState, key: KeyEvent, r: MessageAction) -> bool {
    &&& (MessageViewState { notice: None, ..v1 }) == pager_after(v0, key)
    &&& (v1.notice is Some) == (plain(key, 'y') && copied(v0) is None)
    &&& v1.notice matches Some(n) ==> n@ == nothing_selected_text()
    &&& (r is Close) == closes(key)
    &&& (r is Copy) == (plain(key, 'y') && copied(v0) is Some)
    &&& r matches MessageAction::Copy(t) ==> copied(v0) == Some(t@)
}

/// Handles a key in the pager: `q` or Esc closes it, `V` selects whole
/// rows, `y` copies them, and `j`/`k`, Space/`f`/`b`, Ctrl-`d`/Ctrl-`u`,
/// `g`/`G` scroll as in `less` or move the selection's cursor.
pub fn handle_key(view: &mut MessageViewState, key: KeyEvent) -> (r: MessageAction)
    ensures
        (MessageViewState { notice: None, ..*final(view) }) == pager_after(*old(view), key),
        (final(view).notice is Some) == (plain(key, 'y') && copied(*old(view)) is None),
        final(view).notice matches Some(n) ==> n@ == nothing_selected_text(),
        (r is Close) == closes(key),
        (r is Copy) == (plain(key, 'y') && copied(*old(view)) is Some),
        r matches MessageAction::Copy(t) ==> copied(*old(view)) == Some(t@),
{
    view.notice = None;
    let none = key.modifiers.empty();
    let shift = key.modifiers.only_shift();
    let control = key.modifiers.only_control();
    let code = key.code;
    let selecting = view.selection.is_some();
    if (code == KeyCode::Char('q') || code == KeyCode::Esc) && none {
        MessageAction::Close
    } else if (code == KeyCode::Char('V') && (none || shift)) || (code == KeyCode::Char('v') && shift) {
        view.toggle_line_selection();
        MessageAction::Handled
    } else if code == KeyCode::Char('y') && none {
        match view.selected_text() {
            Some(text) => {
                if text.as_str().unicode_len() > 0 {
                    view.selection = None;
                    return MessageAction::Copy(text);
                }
            },
            None => {},
        }
        let n = String::from_str("nothing selected");
        proof {
            reveal_strlit("nothing selected");
        }
        view.notice = Some(n);
        MessageAction::Handled
    } else if (code == KeyCode::Char('j') || code == KeyCode::Down) && none {
        if selecting {
            view.move_selection(1, true);
        } else {
            view.scroll_down(1);
        }
        MessageAction::Handled
    } else if (code == KeyCode::Char('k') || code == KeyCode::Up) && none {
        if selecting {
            view.move_selection(1, false);
        } else {
            view.scroll_up(1);
        }
        MessageAction::Handled
    } else if (code == KeyCode::Char('f') || code == KeyCode::Char(' ') || code == KeyCode::PageDown) && none {
        let rows = view.page_rows();
        if selecting {
            view.move_selection(rows, true);
        } else {
            view.scroll_down(rows);
        }
        MessageAction::Handled
    } else if (code == KeyCode::Char('b') || code == KeyCode::PageUp) && none {
        let rows = view.page_rows();
        if selecting {
            view.move_selection(rows, false);
        } else {
            view.scroll_up(rows);
        }
        MessageAction::Handled
    } else if code == KeyCode::Char('d') && control {
        let rows = view.half_page_rows();
        if selecting {
            view.move_selection(rows, true);
        } else {
            view.scroll_down(rows);
        }
        MessageAction::Handled
    } else if code == KeyCode::Char('u') && control {
        let rows = view.half_page_rows();
        if selecting {
            view.move_selection(rows, false);
        } else {
            view.scroll_up(rows);
        }
        MessageAction::Handled
    } else if (code == KeyCode::Char('g') || code == KeyCode::Home) && none {
        if selecting {
            view.move_selection_to(0);
        } else {
            view.scroll_to_top();
        }
        MessageAction::Handled
    } else if (code == KeyCode::Char('G') && (none || shift)) || code == KeyCode::End {
        if selecting {
            let last = view.wrapped_rows.len().saturating_sub(1);
            view.move_selection_to(last);
        } else {
            view.scroll_to_bottom();
        }
        MessageAction::Handled
    } else {
        MessageAction::Handled
    }
}

/// The pager's text, rows and viewport are those of another.
pub open spec fn same_rows(a: MessageViewState, b: MessageViewState) -> bool {
    &&& a.source == b.source
    &&& a.wrapped_rows == b.wrapped_rows
    &&& a.content_rows == b.content_rows
    &&& a.viewport_rows == b.viewport_rows
}

/// Each scrolling step keeps the pager within its rows.
proof fn lemma_steps_in_range(v: MessageViewState, rows: int, row: int)
    requires
        v.vertical_offset <= max_offset_of(v),
        rows >= 0,
        row >= 0,
    ensures
        same_rows(scrolled_down(v, rows), v) && scrolled_down(v, rows).vertical_offset <= max_offset_of(v),
        same_rows(scrolled_up(v, rows), v) && scrolled_up(v, rows).vertical_offset <= max_offset_of(v),
        same_rows(scrolled_to(v, 0, false), v),
        same_rows(scrolled_to(v, max_offset_of(v), true), v),
        same_rows(toggled(v), v) && toggled(v).vertical_offset == v.vertical_offset,
        same_rows(cursor_moved(v, rows, true), v) && cursor_moved(v, rows, true).vertical_offset <= max_offset_of(v),
        same_rows(cursor_moved(v, rows, false), v) && cursor_moved(v, rows, false).vertical_offset <= max_offset_of(
            v,
        ),
        same_rows(cursor_moved_to(v, row), v) && cursor_moved_to(v, row).vertical_offset <= max_offset_of(v),
{
    lemma_cursor_shown_in_range(v, row);
    match v.selection {
        Some(sel) => {
            lemma_cursor_shown_in_range(v, sel.cursor + rows);
            lemma_cursor_shown_in_range(v, minus(sel.cursor as int, rows));
        },
        None => {},
    }
}

proof fn lemma_cursor_shown_in_range(v: MessageViewState, row: int)
    requires
        v.vertical_offset <= max_offset_of(v),
    ensures
        same_rows(cursor_moved_to(v, row), v) && cursor_moved_to(v, row).vertical_offset <= max_offset_of(v),
{
}

/// Whatever key is pressed, a pager that is not scrolled past its last rows
/// stays so, and its text, rows and viewport do not change.
#[verifier::rlimit(40)]
pub proof fn lemma_keys_keep_the_pager_in_range(v: MessageViewState, key: KeyEvent)
    requires
        v.vertical_offset <= max_offset_of(v),
    ensures
        pager_after(v, key).vertical_offset <= max_offset_of(pager_after(v, key)),
        same_rows(pager_after(v, key), v),
{
    let w = MessageViewState { notice: None, ..v };
    let r = pager_after(v, key);
    assert(max_offset_of(w) == max_offset_of(v));
    if closes(key) || toggles(key) || plain(key, 'y') {
        lemma_steps_in_range(w, 0, 0);
    } else if (plain(key, 'j') || key.code == KeyCode::Down || plain(key, 'k') || key.code == KeyCode::Up)
        && key.modifiers.is_none() {
        lemma_steps_in_range(w, 1, 0);
    } else if (plain(key, 'f') || plain(key, ' ') || key.code == KeyCode::PageDown || plain(key, 'b') || key.code
        == KeyCode::PageUp) && key.modifiers.is_none() {
        lemma_steps_in_range(w, page_rows_of(w), 0);
    } else if (key.code == KeyCode::Char('d') || key.code == KeyCode::Char('u')) && key.modifiers.is_control() {
        lemma_steps_in_range(w, half_page_rows_of(w), 0);
    } else {
        lemma_steps_in_range(w, 0, minus(w.wrapped_rows@.len() as int, 1));
    }
    assert(max_offset_of(r) == max_offset_of(v));
}

} // verus!
