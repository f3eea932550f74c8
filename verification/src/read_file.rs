//! Rendering of file contents for the `read_file` tool: windows of lines
//! chosen by offset and limit, numbered lines, long-line truncation and
//! the byte cap on whole-file reads.

use vstd::prelude::*;
use crate::text::{
    byte_len, byte_offset, byte_offsets, chars_of, decimal, is_boundary, push_char, push_str,
    str_byte_len, string_from_chars, sub_chars, trim_end_index, trim_end_seq, u64_to_decimal,
};
use crate::attachments::char_index_at_byte;

verus! {

/// Most bytes read from a file when neither offset nor limit is given.
pub const MAX_READ_BYTES: usize = 51200;

/// Longest line, in bytes, shown before it is cut.
pub const MAX_LINE_LENGTH: usize = 2000;

/// What a file read returns.
pub struct FileContentResult {
    pub content: String,
    pub file_path: String,
    pub line_count: usize,
    pub truncated: bool,
}

/// Index of the first `\n` in `s` at or after `i`, or `s.len()`.
pub open spec fn newline_index(s: Seq<char>, i: int) -> int
    decreases s.len() - i,
{
    if i >= s.len() {
        s.len() as int
    } else if s[i] == '\n' {
        i
    } else {
        newline_index(s, i + 1)
    }
}

pub proof fn lemma_newline_index(s: Seq<char>, i: int)
    requires
        0 <= i <= s.len(),
    ensures
        i <= newline_index(s, i) <= s.len(),
        newline_index(s, i) < s.len() ==> s[newline_index(s, i)] == '\n',
        forall|k: int| i <= k < newline_index(s, i) ==> s[k] != '\n',
    decreases s.len() - i,
{
    if i < s.len() && s[i] != '\n' {
        lemma_newline_index(s, i + 1);
    }
}

/// `t` without one trailing carriage return.
pub open spec fn strip_cr(t: Seq<char>) -> Seq<char> {
    if t.len() > 0 && t.last() == '\r' {
        t.drop_last()
    } else {
        t
    }
}

/// The lines of `s` as `str::lines` yields them: split at each `\n`, a
/// `\r` right before the `\n` dropped, and no empty line after a final `\n`.
pub open spec fn lines_of(s: Seq<char>) -> Seq<Seq<char>>
    decreases s.len(),
{
    if s.len() == 0 {
        Seq::empty()
    } else {
        let k = newline_index(s, 0);
        proof {
            lemma_newline_index(s, 0);
        }
        if k >= s.len() {
            seq![s]
        } else {
            seq![strip_cr(s.take(k))] + lines_of(s.skip(k + 1))
        }
    }
}

pub open spec fn strings_view(v: Seq<String>) -> Seq<Seq<char>> {
    v.map_values(|s: String| s@)
}

/// The lines of `s` (`str::lines`).
pub fn split_lines(s: &str) -> (r: Vec<String>)
    ensures
        strings_view(r@) == lines_of(s@),
{
    let chars = chars_of(s);
    let mut r: Vec<String> = Vec::new();
    let mut i: usize = 0;
    let ghost mut done: Seq<Seq<char>> = Seq::empty();
    assert(chars@.skip(0) =~= s@);
    while i < chars.len()
        invariant
            i <= chars.len(),
            chars@ == s@,
            strings_view(r@) == done,
            done + lines_of(chars@.skip(i as int)) == lines_of(s@),
        decreases chars.len() - i,
    {
        let ghost rest = chars@.skip(i as int);
        let mut j = i;
        while j < chars.len() && chars[j] != '\n'
            invariant
                i <= j <= chars.len(),
                rest == chars@.skip(i as int),
                newline_index(rest, 0) == newline_index(rest, j - i),
            decreases chars.len() - j,
        {
            j = j + 1;
        }
        proof {
            if j < chars.len() {
                assert(rest[j - i] == chars@[j as int]);
            }
        }
        let mut end = j;
        if j < chars.len() && end > i && chars[end - 1] == '\r' {
            end = end - 1;
        }
        let piece = sub_chars(&chars, i, end);
        let ghost old_r = r@;
        r.push(string_from_chars(&piece));
        proof {
            if j < chars.len() {
                assert(rest.take(j - i) =~= chars@.subrange(i as int, j as int));
                assert(rest.skip(j - i + 1) =~= chars@.skip(j + 1));
                assert(strip_cr(rest.take(j - i)) =~= piece@);
            } else {
                assert(rest =~= piece@);
            }
            assert(strings_view(r@) =~= done.push(piece@));
            done = done.push(piece@);
        }
        if j < chars.len() {
            i = j + 1;
        } else {
            i = j;
        }
        proof {
            if i == chars.len() {
                assert(chars@.skip(i as int) =~= Seq::<char>::empty());
            }
        }
    }
    proof {
        assert(chars@.skip(i as int) =~= Seq::<char>::empty());
    }
    r
}

/// `n` in decimal, right-aligned in a field five wide (`{:5}`).
pub open spec fn padded_number(n: nat) -> Seq<char> {
    let d = decimal(n);
    if d.len() < 5 {
        Seq::new((5 - d.len()) as nat, |i: int| ' ') + d
    } else {
        d
    }
}

/// A numbered line: the padded number, a tab, then the line.
pub open spec fn numbered_line(n: nat, line: Seq<char>) -> Seq<char> {
    padded_number(n) + seq!['\t'] + line
}

pub proof fn lemma_decimal_nonempty(n: nat)
    ensures
        decimal(n).len() >= 1,
    decreases n,
{
    if n >= 10 {
        lemma_decimal_nonempty(n / 10);
    }
}

fn push_padded_number(out: &mut String, n: usize)
    ensures
        final(out)@ == old(out)@ + padded_number(n as nat),
{
    let digits = u64_to_decimal(n as u64);
    let d = chars_of(digits.as_str());
    let ghost start = out@;
    if d.len() < 5 {
        let pad = 5 - d.len();
        let mut k: usize = 0;
        while k < pad
            invariant
                k <= pad,
                out@ == start + Seq::new(k as nat, |i: int| ' '),
            decreases pad - k,
        {
            push_char(out, ' ');
            k = k + 1;
            assert(out@ =~= start + Seq::new(k as nat, |i: int| ' '));
        }
    }
    push_str(out, digits.as_str());
    assert(out@ =~= start + padded_number(n as nat));
}

/// The lines of `lines`, each numbered from `first` on, joined by `\n`.
pub open spec fn numbered_text(lines: Seq<Seq<char>>, first: nat) -> Seq<char>
    decreases lines.len(),
{
    if lines.len() == 0 {
        Seq::empty()
    } else if lines.len() == 1 {
        numbered_line(first, lines[0])
    } else {
        numbered_text(lines.drop_last(), first) + seq!['\n'] + numbered_line(
            (first + lines.len() - 1) as nat,
            lines.last(),
        )
    }
}

/// The numbered lines joined by newlines (`format!("{:5}\t{}")` and `join("\n")`).
pub fn join_numbered(lines: &Vec<String>, first: usize) -> (r: String)
    requires
        first + lines.len() <= usize::MAX + 1,
    ensures
        r@ == numbered_text(strings_view(lines@), first as nat),
{
    let mut r = String::new();
    let ghost v = strings_view(lines@);
    let mut i: usize = 0;
    assert(v.take(0) =~= Seq::<Seq<char>>::empty());
    while i < lines.len()
        invariant
            i <= lines.len(),
            first + lines.len() <= usize::MAX + 1,
            v == strings_view(lines@),
            v.len() == lines.len(),
            r@ == numbered_text(v.take(i as int), first as nat),
        decreases lines.len() - i,
    {
        if i > 0 {
            push_char(&mut r, '\n');
        }
        push_padded_number(&mut r, first + i);
        push_char(&mut r, '\t');
        push_str(&mut r, lines[i].as_str());
        assert(v.take(i + 1).drop_last() =~= v.take(i as int));
        assert(v[i as int] == lines@[i as int]@);
        assert(r@ =~= numbered_text(v.take(i + 1), first as nat));
        i = i + 1;
    }
    assert(v.take(lines.len() as int) =~= v);
    r
}

/// All strings of `v` one after the other.
pub open spec fn concat_all(v: Seq<Seq<char>>) -> Seq<char>
    decreases v.len(),
{
    if v.len() == 0 {
        Seq::empty()
    } else {
        concat_all(v.drop_last()) + v.last()
    }
}

fn concat_strings(lines: &Vec<String>) -> (r: String)
    ensures
        r@ == concat_all(strings_view(lines@)),
{
    let mut r = String::new();
    let ghost v = strings_view(lines@);
    let mut i: usize = 0;
    assert(v.take(0) =~= Seq::<Seq<char>>::empty());
    while i < lines.len()
        invariant
            i <= lines.len(),
            v == strings_view(lines@),
            v.len() == lines.len(),
            r@ == concat_all(v.take(i as int)),
        decreases lines.len() - i,
    {
        push_str(&mut r, lines[i].as_str());
        assert(v.take(i + 1).drop_last() =~= v.take(i as int));
        i = i + 1;
    }
    assert(v.take(lines.len() as int) =~= v);
    r
}

/// How a line read from the file is shown: cut at `MAX_LINE_LENGTH` bytes
/// with a marker when longer, and without trailing whitespace.
pub open spec fn shown_line(line: Seq<char>) -> Seq<char> {
    if byte_len(line) > MAX_LINE_LENGTH {
        trim_end_seq(
            line.take(char_index_at_byte(line, MAX_LINE_LENGTH as int))
                + "... [line truncated]"@,
        )
    } else {
        trim_end_seq(line)
    }
}

/// A line can be shown: if it is longer than the cap, the cap falls on a
/// character boundary (cutting elsewhere panics).
pub open spec fn line_cuttable(line: Seq<char>) -> bool {
    byte_len(line) > MAX_LINE_LENGTH ==> is_boundary(line, MAX_LINE_LENGTH as int)
}

fn show_line(line: &str) -> (r: String)
    requires
        line_cuttable(line@),
    ensures
        r@ == shown_line(line@),
{
    let chars = chars_of(line);
    let total = str_byte_len(line);
    if total > MAX_LINE_LENGTH {
        let offs = byte_offsets(&chars);
        let ghost w = char_index_at_byte(line@, MAX_LINE_LENGTH as int);
        let mut k: usize = 0;
        while k < chars.len() && offs[k] != MAX_LINE_LENGTH
            invariant
                k <= chars.len(),
                offs.len() == chars.len() + 1,
                forall|j: int| 0 <= j <= chars.len() ==> offs@[j] == byte_offset(chars@, j),
                forall|j: int| 0 <= j < k ==> offs@[j] != MAX_LINE_LENGTH,
            decreases chars.len() - k,
        {
            k = k + 1;
        }
        proof {
            assert(0 <= w <= chars.len() && byte_offset(chars@, w) == MAX_LINE_LENGTH);
            assert(offs@[k as int] == MAX_LINE_LENGTH) by {
                if offs@[k as int] != MAX_LINE_LENGTH {
                    assert(offs@[w] == MAX_LINE_LENGTH);
                }
            }
            crate::text::lemma_byte_offset_injective(chars@, w, k as int);
        }
        let mut cut = sub_chars(&chars, 0, k);
        let marker = chars_of("... [line truncated]");
        let mut m: usize = 0;
        let ghost base = cut@;
        while m < marker.len()
            invariant
                m <= marker.len(),
                cut@ == base + marker@.take(m as int),
            decreases marker.len() - m,
        {
            cut.push(marker[m]);
            m = m + 1;
            assert(cut@ =~= base + marker@.take(m as int));
        }
        assert(marker@.take(marker.len() as int) =~= marker@);
        assert(base =~= line@.take(w));
        let e = trim_end_index(&cut, 0, cut.len());
        assert(cut@.subrange(0, cut.len() as int) =~= cut@);
        let kept = sub_chars(&cut, 0, e);
        string_from_chars(&kept)
    } else {
        let e = trim_end_index(&chars, 0, chars.len());
        assert(chars@.subrange(0, chars.len() as int) =~= chars@);
        let kept = sub_chars(&chars, 0, e);
        string_from_chars(&kept)
    }
}

/// Reading a window of a file's lines, one line at a time: which lines
/// are kept, when reading can stop, and how the result is rendered.
pub struct LineWindow {
    /// First line kept (1-based).
    pub start_line: usize,
    /// Most lines kept, if limited.
    pub line_limit: Option<usize>,
    /// Keep lines exactly as read, without numbers or truncation.
    pub raw: bool,
    /// Number of the next line to be read.
    pub current_line_num: usize,
    pub lines: Vec<String>,
    pub lines_read: usize,
}

/// The window's first line for the requested offset (at least 1).
pub open spec fn window_start(offset: Option<u64>) -> usize {
    match offset {
        Some(o) => if o < 1 {
            1usize
        } else {
            o as usize
        },
        None => 1usize,
    }
}

/// The window's line limit for the requested limit (at least 1 when given).
pub open spec fn window_limit(limit: Option<u64>) -> Option<usize> {
    match limit {
        Some(l) => Some(
            if l < 1 {
                1usize
            } else {
                l as usize
            },
        ),
        None => None,
    }
}

impl LineWindow {
    pub fn new(offset: Option<u64>, limit: Option<u64>, raw: Option<bool>) -> (w: LineWindow)
        ensures
            w.start_line == window_start(offset),
            w.line_limit == window_limit(limit),
            w.raw == (raw == Some(true)),
            w.current_line_num == 1,
            w.lines@.len() == 0,
            w.lines_read == 0,
    {
        let start_line = match offset {
            Some(o) => if o < 1 {
                1usize
            } else {
                o as usize
            },
            None => 1usize,
        };
        let line_limit = match limit {
            Some(l) => Some(
                if l < 1 {
                    1usize
                } else {
                    l as usize
                },
            ),
            None => None,
        };
        let is_raw = match raw {
            Some(b) => b,
            None => false,
        };
        LineWindow {
            start_line,
            line_limit,
            raw: is_raw,
            current_line_num: 1,
            lines: Vec::new(),
            lines_read: 0,
        }
    }

    /// Whether lines are read one at a time (an offset past the first line,
    /// or a limit, was asked for) rather than the whole file at once.
    pub fn is_windowed(&self) -> (b: bool)
        ensures
            b == (self.start_line > 1 || self.line_limit is Some),
    {
        self.start_line > 1 || self.line_limit.is_some()
    }

    pub open spec fn limit_reached(&self) -> bool {
        match self.line_limit {
            Some(l) => self.lines_read >= l,
            None => false,
        }
    }

    /// Takes the next line read from the file (with its line ending) and
    /// tells whether to read on.
    pub fn accept_line(&mut self, line: String) -> (more: bool)
        requires
            old(self).lines_read == old(self).lines@.len(),
            old(self).current_line_num < usize::MAX,
            old(self).raw || line_cuttable(line@),
        ensures
            final(self).start_line == old(self).start_line,
            final(self).line_limit == old(self).line_limit,
            final(self).raw == old(self).raw,
            final(self).lines_read == final(self).lines@.len(),
            old(self).current_line_num >= old(self).start_line ==> {
                &&& final(self).lines@.len() == old(self).lines@.len() + 1
                &&& final(self).lines@.drop_last() == old(self).lines@
                &&& final(self).lines@.last()@ == if old(self).raw {
                    line@
                } else {
                    shown_line(line@)
                }
                &&& more == !final(self).limit_reached()
                &&& final(self).current_line_num == if more {
                    old(self).current_line_num + 1
                } else {
                    old(self).current_line_num as int
                }
            },
            old(self).current_line_num < old(self).start_line ==> {
                &&& final(self).lines == old(self).lines
                &&& more
                &&& final(self).current_line_num == old(self).current_line_num + 1
            },
    {
        if self.current_line_num >= self.start_line {
            let shown = if self.raw {
                line
            } else {
                show_line(line.as_str())
            };
            let ghost before = self.lines@;
            self.lines.push(shown);
            assert(self.lines@.drop_last() =~= before);
            self.lines_read = self.lines.len();
            let reached = match self.line_limit {
                Some(l) => self.lines_read >= l,
                None => false,
            };
            if reached {
                return false;
            }
        }
        self.current_line_num = self.current_line_num + 1;
        true
    }

    /// The window's content, number of lines and whether the limit cut it
    /// short.
    pub fn finish(&self) -> (r: (String, usize, bool))
        requires
            self.start_line + self.lines@.len() <= usize::MAX + 1,
        ensures
            r.0@ == if self.raw {
                concat_all(strings_view(self.lines@))
            } else {
                numbered_text(strings_view(self.lines@), self.start_line as nat)
            },
            r.1 == self.lines@.len(),
            r.2 == self.limit_reached(),
    {
        let truncated = match self.line_limit {
            Some(l) => self.lines_read >= l,
            None => false,
        };
        let content = if self.raw {
            concat_strings(&self.lines)
        } else {
            join_numbered(&self.lines, self.start_line)
        };
        (content, self.lines.len(), truncated)
    }
}

/// Reading a whole file (no offset, no limit) whose text is `text`:
/// raw, the text as it is with its line count; otherwise every line
/// numbered from 1, and cut short when the file is larger than
/// `MAX_READ_BYTES` (`text` is then the decoded first `MAX_READ_BYTES`).
pub fn render_whole_file(text: &str, file_size: u64, raw: bool) -> (r: (String, usize, bool))
    ensures
        r.1 == lines_of(text@).len(),
        raw ==> r.0@ == text@ && !r.2,
        !raw ==> r.0@ == numbered_text(lines_of(text@), 1) && r.2 == (file_size
            > MAX_READ_BYTES),
{
    let lines = split_lines(text);
    assert(strings_view(lines@).len() == lines@.len());
    if raw {
        let mut content = String::new();
        push_str(&mut content, text);
        (content, lines.len(), false)
    } else {
        proof {
            lemma_lines_bound(text@);
        }
        let content = join_numbered(&lines, 1);
        (content, lines.len(), file_size > 51200)
    }
}

pub proof fn lemma_lines_bound(s: Seq<char>)
    ensures
        lines_of(s).len() <= s.len(),
    decreases s.len(),
{
    if s.len() > 0 {
        lemma_newline_index(s, 0);
        let k = newline_index(s, 0);
        if k < s.len() {
            lemma_lines_bound(s.skip(k + 1));
        }
    }
}

} // verus!

verus! {

/// What a read-file tool call has produced so far.
pub enum ReadOutcome {
    /// The file's content.
    FileContent(String),
    /// The call failed.
    Error,
    /// No result yet, or a result of another kind.
    Pending,
}

/// The one-line summary of a read-file tool call.
pub struct ReadFileFormatter;

/// The line range shown for a read with `offset` and `limit`: lines are
/// counted from 1, and a read without limit runs to the end.
pub open spec fn range_label(offset: Option<u64>, limit: Option<u64>) -> Option<Seq<char>> {
    if offset is None && limit is None {
        None
    } else {
        let first: nat = match offset {
            Some(o) => (o + 1) as nat,
            None => 1,
        };
        let count: nat = match limit {
            Some(l) => l as nat,
            None => 0,
        };
        if count > 0 {
            Some(" ["@ + decimal(first) + "-"@ + decimal((first + count - 1) as nat) + "]"@)
        } else {
            Some(" ["@ + decimal(first) + "+]"@)
        }
    }
}

/// The result shown after the file name.
pub open spec fn outcome_label(r: ReadOutcome) -> Seq<char> {
    match r {
        ReadOutcome::FileContent(c) => decimal(lines_of(c@).len()) + " lines"@,
        ReadOutcome::Error => "error"@,
        ReadOutcome::Pending => "pending"@,
    }
}

/// The whole summary: file name, line range, and result in brackets.
pub open spec fn read_summary(
    file_name: Seq<char>,
    offset: Option<u64>,
    limit: Option<u64>,
    r: ReadOutcome,
) -> Seq<char> {
    file_name + match range_label(offset, limit) {
        Some(l) => l,
        None => Seq::empty(),
    } + " ("@ + outcome_label(r) + ")"@
}

impl ReadFileFormatter {
    /// The line range label (` [a-b]` or ` [a+]`), if the read named a
    /// window of lines.
    pub fn range_label(&self, offset: Option<u64>, limit: Option<u64>) -> (r: Option<String>)
        requires
            offset matches Some(o) ==> o < u64::MAX,
            offset matches Some(o) ==> (limit matches Some(l) ==> o + l <= u64::MAX),
        ensures
            match r {
                Some(s) => range_label(offset, limit) == Some(s@),
                None => range_label(offset, limit) is None,
            },
    {
        if offset.is_none() && limit.is_none() {
            return None;
        }
        let first: u64 = match offset {
            Some(o) => o + 1,
            None => 1,
        };
        let count: u64 = match limit {
            Some(l) => l,
            None => 0,
        };
        let mut s = String::new();
        push_str(&mut s, " [");
        push_str(&mut s, u64_to_decimal(first).as_str());
        if count > 0 {
            push_str(&mut s, "-");
            push_str(&mut s, u64_to_decimal((first - 1) + count).as_str());
            push_str(&mut s, "]");
        } else {
            push_str(&mut s, "+]");
        }
        Some(s)
    }

    /// The result label: the number of lines read, `error` or `pending`.
    pub fn outcome_label(&self, r: &ReadOutcome) -> (s: String)
        ensures
            s@ == outcome_label(*r),
    {
        match r {
            ReadOutcome::FileContent(content) => {
                let lines = split_lines(content.as_str());
                assert(strings_view(lines@).len() == lines@.len());
                let mut s = u64_to_decimal(lines.len() as u64);
                push_str(&mut s, " lines");
                s
            },
            ReadOutcome::Error => {
                let mut s = String::new();
                push_str(&mut s, "error");
                s
            },
            ReadOutcome::Pending => {
                let mut s = String::new();
                push_str(&mut s, "pending");
                s
            },
        }
    }

    /// The summary line for reading `file_name`.
    pub fn compact(&self, file_name: &str, offset: Option<u64>, limit: Option<u64>, r: &ReadOutcome) -> (s: String)
        requires
            offset matches Some(o) ==> o < u64::MAX,
            offset matches Some(o) ==> (limit matches Some(l) ==> o + l <= u64::MAX),
        ensures
            s@ == read_summary(file_name@, offset, limit, *r),
    {
        let mut s = String::new();
        push_str(&mut s, file_name);
        if let Some(label) = self.range_label(offset, limit) {
            push_str(&mut s, label.as_str());
        }
        push_str(&mut s, " (");
        push_str(&mut s, self.outcome_label(r).as_str());
        push_str(&mut s, ")");
        s
    }
}

/// A window opens at the line asked for: at line `o` for an offset `o` of at
/// least 1, and at the first line without an offset or for offset 0. It
/// keeps at most the `l` lines asked for (at least one), and is unbounded
/// without a limit.
pub proof fn law_window_starts_at_the_offset(o: u64, l: u64)
    ensures
        1 <= o <= usize::MAX ==> window_start(Some(o)) == o,
        window_start(Some(0)) == 1,
        window_start(None) == 1,
        1 <= l <= usize::MAX ==> window_limit(Some(l)) == Some(l as usize),
        window_limit(Some(0)) == Some(1usize),
        window_limit(None) is None,
{
}

} // verus!
