//! Inline image attachments in the message composer.
//!
//! An attached image is represented in the input text by a private-use
//! character (its token), usually followed by a rendered label such as
//! `[Image 2]`.  This module finds, renumbers, strips and deletes those
//! tokens and splits a finished message into text and image parts.

use vstd::prelude::*;
use crate::text::{
    byte_len, byte_offset, is_boundary, lemma_byte_offset_injective, lemma_byte_offset_monotone, byte_offsets, chars_of, decimal, is_whitespace, is_ws, push_char,
    push_str, str_byte_len, string_from_chars, sub_chars, trim_chars, char_from_u32, trim_seq, u64_to_decimal,
};

verus! {

/// Characters of the Unicode private-use block that tokens are drawn from.
pub open spec fn is_token_char(c: char) -> bool {
    0xE000 <= (c as u32) && (c as u32) <= 0xF8FF
}

/// The text `[Image ` that every rendered label starts with.
pub open spec fn image_prefix() -> Seq<char> {
    seq!['[', 'I', 'm', 'a', 'g', 'e', ' ']
}

/// Index of the first `]` in `s` at or after `i`, or `s.len()` when there is none.
pub open spec fn close_index(s: Seq<char>, i: int) -> int
    decreases s.len() - i,
{
    if i >= s.len() {
        s.len() as int
    } else if s[i] == ']' {
        i
    } else {
        close_index(s, i + 1)
    }
}

/// Number of whitespace characters at the start of `s`.
pub open spec fn ws_len(s: Seq<char>) -> nat
    decreases s.len(),
{
    if s.len() > 0 && is_ws(s[0]) {
        1 + ws_len(s.drop_first())
    } else {
        0
    }
}

pub proof fn lemma_ws_len_bound(s: Seq<char>)
    ensures
        ws_len(s) <= s.len(),
    decreases s.len(),
{
    if s.len() > 0 && is_ws(s[0]) {
        lemma_ws_len_bound(s.drop_first());
    }
}

pub proof fn lemma_close_index(s: Seq<char>, i: int)
    requires
        0 <= i <= s.len(),
    ensures
        i <= close_index(s, i) <= s.len(),
        close_index(s, i) < s.len() ==> s[close_index(s, i)] == ']',
        forall|k: int| i <= k < close_index(s, i) ==> s[k] != ']',
    decreases s.len() - i,
{
    if i < s.len() && s[i] != ']' {
        lemma_close_index(s, i + 1);
    }
}

/// `s` holds a complete label `[Image …]` at its start: the length of
/// that label in characters, through its closing bracket.
pub open spec fn label_chars(s: Seq<char>) -> Option<nat> {
    let j = close_index(s, 0);
    if j < s.len() && s.len() >= 7 && s.take(7) == image_prefix() {
        Some((j + 1) as nat)
    } else {
        None
    }
}

/// The text with every token that is followed (after optional whitespace)
/// by a label `[Image …]` removed together with that label.
pub open spec fn stripped(s: Seq<char>) -> Seq<char>
    decreases s.len(),
{
    if s.len() == 0 {
        Seq::empty()
    } else if !is_token_char(s[0]) {
        seq![s[0]] + stripped(s.drop_first())
    } else {
        let rest = s.drop_first();
        let t = rest.skip(ws_len(rest) as int);
        let j = close_index(t, 0);
        proof {
            lemma_ws_len_bound(rest);
        }
        if j < t.len() && j >= 6 && t.take(7) == image_prefix() {
            stripped(t.skip(j + 1))
        } else {
            seq![s[0]] + stripped(rest)
        }
    }
}

/// Whether `v[i..]` starts with `[Image `.
fn has_image_prefix_at(v: &[char], i: usize) -> (b: bool)
    requires
        i <= v.len(),
    ensures
        b == (i + 7 <= v.len() && v@.subrange(i as int, i + 7) == image_prefix()),
{
    if v.len() - i < 7 {
        return false;
    }
    let b = v[i] == '[' && v[i + 1] == 'I' && v[i + 2] == 'm' && v[i + 3] == 'a' && v[i + 4]
        == 'g' && v[i + 5] == 'e' && v[i + 6] == ' ';
    if b {
        assert(v@.subrange(i as int, i + 7) =~= image_prefix());
    } else {
        assert(v@.subrange(i as int, i + 7) != image_prefix()) by {
            if v@.subrange(i as int, i + 7) == image_prefix() {
                assert(v@.subrange(i as int, i + 7)[0] == image_prefix()[0]);
                assert(v@.subrange(i as int, i + 7)[1] == image_prefix()[1]);
                assert(v@.subrange(i as int, i + 7)[2] == image_prefix()[2]);
                assert(v@.subrange(i as int, i + 7)[3] == image_prefix()[3]);
                assert(v@.subrange(i as int, i + 7)[4] == image_prefix()[4]);
                assert(v@.subrange(i as int, i + 7)[5] == image_prefix()[5]);
                assert(v@.subrange(i as int, i + 7)[6] == image_prefix()[6]);
            }
        }
    }
    b
}

/// The index just past the whitespace that starts `v[i..]`.
fn skip_whitespace(v: &[char], i: usize) -> (k: usize)
    requires
        i <= v.len(),
    ensures
        k == i + ws_len(v@.skip(i as int)),
        k <= v.len(),
{
    let mut k = i;
    proof {
        lemma_ws_len_bound(v@.skip(i as int));
    }
    while k < v.len() && is_whitespace(v[k])
        invariant
            i <= k <= v.len(),
            i + ws_len(v@.skip(i as int)) == k + ws_len(v@.skip(k as int)),
        decreases v.len() - k,
    {
        assert(v@.skip(k as int).drop_first() =~= v@.skip(k + 1));
        k = k + 1;
    }
    k
}

/// The index of the first `]` in `v[i..]`, or `v.len()`.
fn find_close(v: &[char], i: usize) -> (j: usize)
    requires
        i <= v.len(),
    ensures
        j == i + close_index(v@.skip(i as int), 0),
        i <= j <= v.len(),
{
    let ghost t = v@.skip(i as int);
    let mut j = i;
    while j < v.len() && v[j] != ']'
        invariant
            i <= j <= v.len(),
            t == v@.skip(i as int),
            close_index(t, 0) == close_index(t, j - i),
        decreases v.len() - j,
    {
        j = j + 1;
    }
    proof {
        if j < v.len() {
            assert(t[j - i] == v@[j as int]);
        }
    }
    j
}

/// Removes rendered image labels together with their token characters.
pub fn strip_image_token_labels(content: &str) -> (r: String)
    ensures
        r@ == stripped(content@),
{
    let chars = chars_of(content);
    let mut output = String::new();
    let mut i: usize = 0;
    assert(chars@.skip(0) =~= chars@);
    assert(output@ + stripped(content@) =~= stripped(content@));
    while i < chars.len()
        invariant
            i <= chars.len(),
            chars@ == content@,
            output@ + stripped(chars@.skip(i as int)) == stripped(content@),
        decreases chars.len() - i,
    {
        let ch = chars[i];
        let ghost s = chars@.skip(i as int);
        assert(s.drop_first() =~= chars@.skip(i + 1));
        if !(0xE000 <= (ch as u32) && (ch as u32) <= 0xF8FF) {
            push_char(&mut output, ch);
            i = i + 1;
            assert(output@ + stripped(chars@.skip(i as int)) =~= stripped(content@));
            continue;
        }
        i = i + 1;
        let label_start = i;
        let k = skip_whitespace(&chars, i);
        assert(chars@.skip(label_start as int).skip(ws_len(chars@.skip(label_start as int)) as int)
            =~= chars@.skip(k as int));
        let j = find_close(&chars, k);
        if j < chars.len() && j - k >= 6 && has_image_prefix_at(&chars, k) {
            assert(chars@.skip(k as int).take(7) =~= chars@.subrange(k as int, k + 7));
            assert(chars@.skip(k as int).skip(j - k + 1) =~= chars@.skip(j + 1));
            i = j + 1;
            continue;
        }
        proof {
            if j < chars.len() && j - k >= 6 {
                assert(chars@.skip(k as int).take(7) =~= chars@.subrange(k as int, k + 7));
            }
        }
        push_char(&mut output, ch);
        i = label_start;
        assert(output@ + stripped(chars@.skip(i as int)) =~= stripped(content@));
    }
    assert(chars@.skip(chars.len() as int) =~= Seq::<char>::empty());
    assert(output@ + Seq::<char>::empty() =~= output@);
    output
}

/// Where an image's data comes from.
pub enum ImageSource {
    /// The image inline, as a `data:` URL.
    DataUrl { data_url: String },
}

/// An image attached to a user message.
pub struct ImageContent {
    pub source: ImageSource,
    pub mime_type: String,
    pub width: Option<u32>,
    pub height: Option<u32>,
    pub bytes: Option<u64>,
    pub sha256: Option<String>,
}

/// The plain values an [`ImageContent`] holds.
pub struct ImageContentView {
    pub data_url: Seq<char>,
    pub mime_type: Seq<char>,
    pub width: Option<u32>,
    pub height: Option<u32>,
    pub bytes: Option<u64>,
    pub sha256: Option<Seq<char>>,
}

pub open spec fn opt_string_view(o: Option<String>) -> Option<Seq<char>> {
    match o {
        Some(s) => Some(s@),
        None => None,
    }
}

impl View for ImageContent {
    type V = ImageContentView;

    open spec fn view(&self) -> ImageContentView {
        ImageContentView {
            data_url: match self.source {
                ImageSource::DataUrl { data_url } => data_url@,
            },
            mime_type: self.mime_type@,
            width: self.width,
            height: self.height,
            bytes: self.bytes,
            sha256: opt_string_view(self.sha256),
        }
    }
}

impl ImageContent {
    /// A copy with the same contents.
    pub fn copy(&self) -> (r: ImageContent)
        ensures
            r@ == self@,
    {
        let source = match &self.source {
            ImageSource::DataUrl { data_url } => ImageSource::DataUrl { data_url: data_url.clone() },
        };
        let sha256 = match &self.sha256 {
            Some(h) => Some(h.clone()),
            None => None,
        };
        ImageContent {
            source,
            mime_type: self.mime_type.clone(),
            width: self.width,
            height: self.height,
            bytes: self.bytes,
            sha256,
        }
    }
}

/// An image waiting in the composer, with the token that marks its place.
pub struct PendingAttachment {
    pub image: ImageContent,
    pub token: char,
}

/// The tokens of `v`, in order.
pub open spec fn tokens_of(v: Seq<PendingAttachment>) -> Seq<char> {
    v.map_values(|a: PendingAttachment| a.token)
}

/// One part of a user message.
pub enum UserContent {
    Text { text: String },
    Image { image: ImageContent },
}

/// What a message part is: trimmed text, or the image of the attachment
/// at the given index.
pub enum PartModel {
    Text(Seq<char>),
    Image(int),
}

/// `u` is the part `p`, with images taken from `images`.
pub open spec fn part_is(u: UserContent, p: PartModel, images: Seq<PendingAttachment>) -> bool {
    match (u, p) {
        (UserContent::Text { text }, PartModel::Text(t)) => text@ == t,
        (UserContent::Image { image }, PartModel::Image(k)) => 0 <= k < images.len()
            && image@ == images[k].image@,
        _ => false,
    }
}

pub open spec fn parts_are(
    us: Seq<UserContent>,
    ps: Seq<PartModel>,
    images: Seq<PendingAttachment>,
) -> bool {
    &&& us.len() == ps.len()
    &&& forall|i: int| 0 <= i < us.len() ==> #[trigger] part_is(us[i], ps[i], images)
}

/// Index of the first attachment whose token is `c` (or `toks.len()`).
pub open spec fn owner_from(toks: Seq<char>, c: char, i: int) -> int
    decreases toks.len() - i,
{
    if i >= toks.len() {
        toks.len() as int
    } else if toks[i] == c {
        i
    } else {
        owner_from(toks, c, i + 1)
    }
}

pub open spec fn owner(toks: Seq<char>, c: char) -> int {
    owner_from(toks, c, 0)
}

pub proof fn lemma_owner_from(toks: Seq<char>, c: char, i: int)
    requires
        0 <= i <= toks.len(),
    ensures
        i <= owner_from(toks, c, i) <= toks.len(),
        owner_from(toks, c, i) < toks.len() ==> toks[owner_from(toks, c, i)] == c,
        forall|k: int| i <= k < owner_from(toks, c, i) ==> toks[k] != c,
    decreases toks.len() - i,
{
    if i < toks.len() && toks[i] != c {
        lemma_owner_from(toks, c, i + 1);
    }
}

/// Length in characters of the label at the start of `s`, or 0 if there is none.
pub open spec fn label_or_zero(s: Seq<char>) -> nat {
    match label_chars(s) {
        Some(n) => n,
        None => 0,
    }
}

pub proof fn lemma_label_bound(s: Seq<char>)
    ensures
        label_or_zero(s) <= s.len(),
{
    lemma_close_index(s, 0);
}

/// The text part for `t`: its trimmed text, unless that is empty.
pub open spec fn text_part(t: Seq<char>) -> Seq<PartModel> {
    if trim_seq(t).len() > 0 {
        seq![PartModel::Text(trim_seq(t))]
    } else {
        Seq::empty()
    }
}

/// Position of the first character of `s` at or after `i` that is one of `toks`.
pub open spec fn next_token_pos(s: Seq<char>, toks: Seq<char>, i: int) -> int
    decreases s.len() - i,
{
    if i >= s.len() {
        s.len() as int
    } else if toks.contains(s[i]) {
        i
    } else {
        next_token_pos(s, toks, i + 1)
    }
}

pub proof fn lemma_next_token_pos(s: Seq<char>, toks: Seq<char>, i: int)
    requires
        0 <= i <= s.len(),
    ensures
        i <= next_token_pos(s, toks, i) <= s.len(),
        next_token_pos(s, toks, i) < s.len() ==> toks.contains(s[next_token_pos(s, toks, i)]),
    decreases s.len() - i,
{
    if i < s.len() && !toks.contains(s[i]) {
        lemma_next_token_pos(s, toks, i + 1);
    }
}

/// The parts of the message `s`: the text between tokens (trimmed, and left
/// out when blank), and for each token the image of its attachment; a label
/// right after a token belongs to the token and is not text.
pub open spec fn message_parts(s: Seq<char>, toks: Seq<char>) -> Seq<PartModel>
    decreases s.len(),
{
    let k = next_token_pos(s, toks, 0);
    proof {
        lemma_next_token_pos(s, toks, 0);
        lemma_label_bound(s.skip(k + 1));
    }
    if k >= s.len() {
        text_part(s)
    } else {
        let after = s.skip(k + 1);
        text_part(s.take(k)) + seq![PartModel::Image(owner(toks, s[k]))] + message_parts(
            after.skip(label_or_zero(after) as int),
            toks,
        )
    }
}

/// The label `[Image n]`.
pub open spec fn image_label(n: nat) -> Seq<char> {
    image_prefix() + decimal(n) + seq![']']
}

/// Renders the label shown after the `n`-th image token.
pub fn format_inline_image_token(n: usize) -> (r: String)
    ensures
        r@ == image_label(n as nat),
{
    let mut r = String::new();
    push_str(&mut r, "[Image ");
    push_str(&mut r, u64_to_decimal(n as u64).as_str());
    push_str(&mut r, "]");
    proof {
        reveal_strlit("[Image ");
        reveal_strlit("]");
        assert("[Image "@ =~= image_prefix());
    }
    r
}

/// The length in characters of the label at `v[i..]`, if one is there.
fn label_len_at(v: &[char], i: usize) -> (r: Option<usize>)
    requires
        i <= v.len(),
    ensures
        r == match label_chars(v@.skip(i as int)) {
            Some(n) => Some(n as usize),
            None => None::<usize>,
        },
        r is Some ==> i + r->0 <= v.len(),
{
    let j = find_close(v, i);
    let ghost t = v@.skip(i as int);
    proof {
        lemma_close_index(t, 0);
    }
    if j < v.len() && has_image_prefix_at(v, i) {
        assert(t.take(7) =~= v@.subrange(i as int, i + 7));
        Some(j - i + 1)
    } else {
        proof {
            if j < v.len() && t.len() >= 7 {
                assert(t.take(7) =~= v@.subrange(i as int, i + 7));
            }
        }
        None
    }
}

/// Returns the byte length of an image label at the start of `s`, if one is present.
/// Matches any label of the form `[Image ...]`.
pub fn image_label_len_at(s: &str) -> (r: Option<usize>)
    ensures
        r == match label_chars(s@) {
            Some(n) => Some(byte_offset(s@, n as int) as usize),
            None => None::<usize>,
        },
{
    let v = chars_of(s);
    let total = str_byte_len(s);
    assert(v@.skip(0) =~= v@);
    proof {
        lemma_label_bound(v@);
    }
    match label_len_at(&v, 0) {
        Some(n) => {
            let offs = byte_offsets(&v);
            Some(offs[n])
        },
        None => None,
    }
}

/// Index of the first attachment in `images` whose token is `c`.
fn find_owner(images: &[PendingAttachment], c: char) -> (r: Option<usize>)
    ensures
        match r {
            Some(k) => k == owner(tokens_of(images@), c) && k < images.len(),
            None => !tokens_of(images@).contains(c),
        },
{
    let ghost toks = tokens_of(images@);
    let mut i: usize = 0;
    while i < images.len()
        invariant
            i <= images.len(),
            toks == tokens_of(images@),
            toks.len() == images.len(),
            owner(toks, c) == owner_from(toks, c, i as int),
            forall|k: int| 0 <= k < i ==> toks[k] != c,
        decreases images.len() - i,
    {
        assert(toks[i as int] == images@[i as int].token);
        if images[i].token == c {
            return Some(i);
        }
        i = i + 1;
    }
    proof {
        if toks.contains(c) {
            let k = choose|k: int| 0 <= k < toks.len() && toks[k] == c;
            assert(toks[k] != c);
        }
    }
    None
}

/// The text part for `buf` as a vector.
fn push_text_part(result: &mut Vec<UserContent>, buf: &[char])
    ensures
        final(result)@.len() == old(result)@.len() + text_part(buf@).len(),
        forall|i: int| 0 <= i < old(result)@.len() ==> final(result)@[i] == old(result)@[i],
        text_part(buf@).len() == 1 ==> (final(result)@.last() matches UserContent::Text { text }
            && text@ == trim_seq(buf@)),
{
    let trimmed = trim_chars(buf, 0, buf.len());
    assert(buf@.subrange(0, buf.len() as int) =~= buf@);
    if trimmed.len() > 0 {
        result.push(UserContent::Text { text: string_from_chars(&trimmed) });
    }
}

pub proof fn lemma_next_token_pos_shift(buf: Seq<char>, r: Seq<char>, toks: Seq<char>, i: int)
    requires
        0 <= i <= buf.len(),
        forall|k: int| 0 <= k < buf.len() ==> !toks.contains(buf[k]),
    ensures
        next_token_pos(buf + r, toks, i) == buf.len() + next_token_pos(r, toks, 0),
    decreases buf.len() + r.len() - i,
{
    let s = buf + r;
    if i < buf.len() {
        assert(s[i] == buf[i]);
        lemma_next_token_pos_shift(buf, r, toks, i + 1);
    } else {
        lemma_next_token_pos_tail(buf, r, toks, 0);
    }
}

proof fn lemma_next_token_pos_tail(buf: Seq<char>, r: Seq<char>, toks: Seq<char>, j: int)
    requires
        0 <= j <= r.len(),
    ensures
        next_token_pos(buf + r, toks, buf.len() + j) == buf.len() + next_token_pos(r, toks, j),
    decreases r.len() - j,
{
    let s = buf + r;
    if j < r.len() {
        assert(s[buf.len() + j] == r[j]);
        lemma_next_token_pos_tail(buf, r, toks, j + 1);
    }
}

/// Splits the composed message into text and image parts, in the order in
/// which they appear; the text around tokens is trimmed and blank text is
/// left out.
pub fn parse_inline_message_content(content: &str, images: &[PendingAttachment]) -> (r: Vec<
    UserContent,
>)
    ensures
        parts_are(r@, message_parts(content@, tokens_of(images@)), images@),
{
    let ghost toks = tokens_of(images@);
    let chars = chars_of(content);
    let mut result: Vec<UserContent> = Vec::new();
    let mut text_buf: Vec<char> = Vec::new();
    let mut cursor: usize = 0;
    let ghost mut done: Seq<PartModel> = Seq::empty();
    assert(text_buf@ + chars@.skip(0) =~= content@);
    while cursor < chars.len()
        invariant
            cursor <= chars.len(),
            chars@ == content@,
            toks == tokens_of(images@),
            forall|k: int| 0 <= k < text_buf.len() ==> !toks.contains(text_buf@[k]),
            parts_are(result@, done, images@),
            done + message_parts(text_buf@ + chars@.skip(cursor as int), toks) == message_parts(
                content@,
                toks,
            ),
        decreases chars.len() - cursor,
    {
        let ch = chars[cursor];
        let ghost rest = chars@.skip(cursor as int);
        let ghost whole = text_buf@ + rest;
        match find_owner(images, ch) {
            Some(idx) => {
                proof {
                    assert(toks.contains(ch)) by {
                        lemma_owner_from(toks, ch, 0);
                    }
                    lemma_next_token_pos_shift(text_buf@, rest, toks, 0);
                    assert(rest[0] == ch);
                    assert(next_token_pos(rest, toks, 0) == 0);
                    assert(whole.take(text_buf.len() as int) =~= text_buf@);
                    assert(whole[text_buf.len() as int] == ch);
                }
                let ghost before = result@;
                let ghost text_buf_len_before = text_buf.len() as int;
                push_text_part(&mut result, &text_buf);
                result.push(UserContent::Image { image: images[idx].image.copy() });
                text_buf = Vec::new();
                let next = cursor + 1;
                let skip = match label_len_at(&chars, next) {
                    Some(n) => n,
                    None => 0,
                };
                proof {
                    let after = chars@.skip(next as int);
                    lemma_label_bound(after);
                    assert(label_or_zero(after) == skip);
                    assert(after.skip(label_or_zero(after) as int) =~= chars@.skip(next + skip));
                    assert(Seq::<char>::empty() + chars@.skip(next + skip) =~= chars@.skip(
                        next + skip,
                    ));
                    let newdone = done + text_part(text_buf@) + seq![PartModel::Image(idx as int)];
                    assert(text_part(Seq::<char>::empty()) =~= Seq::<PartModel>::empty());
                    let tp = text_part(whole.take(text_buf_len_before));
                    let d2 = done + tp + seq![PartModel::Image(owner(toks, ch))];
                    let k = text_buf_len_before;
                    assert(next_token_pos(whole, toks, 0) == k);
                    assert(whole[k] == ch);
                    assert(whole.skip(k + 1) =~= after);
                    assert(message_parts(whole, toks) == tp + seq![PartModel::Image(owner(toks, ch))]
                        + message_parts(after.skip(label_or_zero(after) as int), toks));
                    assert(d2 + message_parts(chars@.skip(next + skip), toks) =~= done
                        + message_parts(whole, toks));
                    assert forall|i: int| 0 <= i < result@.len() implies #[trigger] part_is(
                        result@[i],
                        d2[i],
                        images@,
                    ) by {
                        if i < before.len() {
                            assert(result@[i] == before[i]);
                        } else if i < before.len() + tp.len() {
                        } else {
                            assert(images@[idx as int] == images[idx as int]);
                        }
                    }
                    done = d2;
                }
                cursor = next + skip;
            },
            None => {
                let ghost oldbuf = text_buf@;
                text_buf.push(ch);
                cursor = cursor + 1;
                assert(text_buf@ + chars@.skip(cursor as int) =~= oldbuf + rest);
            },
        }
    }
    proof {
        let s = text_buf@ + chars@.skip(cursor as int);
        assert(chars@.skip(cursor as int) =~= Seq::<char>::empty());
        assert(s =~= text_buf@);
        lemma_next_token_pos_shift(text_buf@, Seq::<char>::empty(), toks, 0);
    }
    let ghost before = result@;
    push_text_part(&mut result, &text_buf);
    proof {
        let d2 = done + text_part(text_buf@);
        assert forall|i: int| 0 <= i < result@.len() implies #[trigger] part_is(
            result@[i],
            d2[i],
            images@,
        ) by {
            if i < before.len() {
                assert(result@[i] == before[i]);
            }
        }
    }
    result
}

/// Where each attachment token of `s` at or after index `i` stands: the
/// token, the index of the token, and the index just past its label (just
/// past the token when no label follows it).
pub open spec fn token_spans_from(s: Seq<char>, toks: Seq<char>, i: int) -> Seq<(char, int, int)>
    decreases s.len() - i,
{
    if i < 0 || i >= s.len() {
        Seq::empty()
    } else if toks.contains(s[i]) {
        seq![(s[i], i, i + 1 + label_or_zero(s.skip(i + 1)))] + token_spans_from(s, toks, i + 1)
    } else {
        token_spans_from(s, toks, i + 1)
    }
}

pub open spec fn token_spans(s: Seq<char>, toks: Seq<char>) -> Seq<(char, int, int)> {
    token_spans_from(s, toks, 0)
}

/// A span measured in bytes rather than characters.
pub open spec fn byte_span(s: Seq<char>, sp: (char, int, int)) -> (char, int, int) {
    (sp.0, byte_offset(s, sp.1) as int, byte_offset(s, sp.2) as int)
}

pub open spec fn span_view(v: Seq<(char, usize, usize)>) -> Seq<(char, int, int)> {
    v.map_values(|x: (char, usize, usize)| (x.0, x.1 as int, x.2 as int))
}

pub proof fn lemma_token_spans_from(s: Seq<char>, toks: Seq<char>, i: int)
    requires
        0 <= i <= s.len(),
    ensures
        forall|k: int|
            0 <= k < token_spans_from(s, toks, i).len() ==> {
                let sp = #[trigger] token_spans_from(s, toks, i)[k];
                &&& i <= sp.1 < sp.2 <= s.len()
                &&& s[sp.1] == sp.0
                &&& toks.contains(sp.0)
            },
    decreases s.len() - i,
{
    if i < s.len() {
        lemma_token_spans_from(s, toks, i + 1);
        lemma_label_bound(s.skip(i + 1));
        if !toks.contains(s[i]) {
            assert(token_spans_from(s, toks, i) == token_spans_from(s, toks, i + 1));
        } else {
            let head = seq![(s[i], i, i + 1 + label_or_zero(s.skip(i + 1)))];
            let tail = token_spans_from(s, toks, i + 1);
            assert forall|k: int|
                0 <= k < token_spans_from(s, toks, i).len() implies {
                let sp = #[trigger] token_spans_from(s, toks, i)[k];
                &&& i <= sp.1 < sp.2 <= s.len()
                &&& s[sp.1] == sp.0
                &&& toks.contains(sp.0)
            } by {
                if k > 0 {
                    assert(token_spans_from(s, toks, i)[k] == tail[k - 1]);
                }
            }
        }
    }
}

/// The byte spans `(token, start, end)` of the attachment tokens of
/// `content`, each reaching over the label that follows the token.
pub fn attachment_spans(content: &str, attachments: &[PendingAttachment]) -> (r: Vec<
    (char, usize, usize),
>)
    ensures
        span_view(r@) == token_spans(content@, tokens_of(attachments@)).map_values(
            |sp: (char, int, int)| byte_span(content@, sp),
        ),
{
    let ghost toks = tokens_of(attachments@);
    let chars = chars_of(content);
    let total = str_byte_len(content);
    let offs = byte_offsets(&chars);
    let mut spans: Vec<(char, usize, usize)> = Vec::new();
    let ghost mut done: Seq<(char, int, int)> = Seq::empty();
    let mut i: usize = 0;
    while i < chars.len()
        invariant
            i <= chars.len(),
            chars@ == content@,
            toks == tokens_of(attachments@),
            offs.len() == chars.len() + 1,
            forall|k: int| 0 <= k <= chars.len() ==> offs@[k] == byte_offset(chars@, k),
            done + token_spans_from(content@, toks, i as int) == token_spans(content@, toks),
            span_view(spans@) == done.map_values(|sp: (char, int, int)| byte_span(content@, sp)),
        decreases chars.len() - i,
    {
        let ch = chars[i];
        match find_owner(attachments, ch) {
            Some(_) => {
                proof {
                    lemma_owner_from(toks, ch, 0);
                }
                let skip = match label_len_at(&chars, i + 1) {
                    Some(n) => n,
                    None => 0,
                };
                let end = i + 1 + skip;
                let ghost sp = (ch, i as int, end as int);
                let ghost old_spans = spans@;
                spans.push((ch, offs[i], offs[end]));
                proof {
                    lemma_label_bound(chars@.skip(i + 1));
                    assert(label_or_zero(chars@.skip(i + 1)) == skip);
                    assert(toks[owner(toks, ch)] == ch);
                    assert(toks.contains(ch));
                    assert(content@[i as int] == ch);
                    assert(token_spans_from(content@, toks, i as int) == seq![sp]
                        + token_spans_from(content@, toks, i + 1));
                    assert(done.push(sp) + token_spans_from(content@, toks, i + 1) =~= done
                        + token_spans_from(content@, toks, i as int));
                    let f = |sp: (char, int, int)| byte_span(content@, sp);
                    assert(span_view(old_spans).len() == old_spans.len());
                    assert(done.map_values(f).len() == done.len());
                    assert(old_spans.len() == done.len());
                    assert(offs@[i as int] == byte_offset(chars@, i as int));
                    assert(offs@[end as int] == byte_offset(chars@, end as int));
                    assert forall|k: int| 0 <= k < spans@.len() implies span_view(spans@)[k]
                        == done.push(sp).map_values(f)[k] by {
                        if k < old_spans.len() {
                            assert(spans@[k] == old_spans[k]);
                            assert(span_view(old_spans)[k] == done.map_values(f)[k]);
                        }
                    }
                    assert(span_view(spans@) =~= done.push(sp).map_values(f));
                    done = done.push(sp);
                }
            },
            None => {},
        }
        i = i + 1;
    }
    proof {
        assert(done =~= token_spans(content@, toks));
    }
    spans
}

/// Column of index `k`: how many characters precede it on its line.
pub open spec fn column_at(s: Seq<char>, k: int) -> int {
    k - crate::edit::line_start_of(s, k)
}

/// The character index whose byte offset is `off`.
pub open spec fn char_index_at_byte(s: Seq<char>, off: int) -> int {
    choose|k: int| 0 <= k <= s.len() && #[trigger] byte_offset(s, k) == off
}

pub open spec fn saturate_u16(n: int) -> u16 {
    if n > u16::MAX {
        u16::MAX
    } else {
        n as u16
    }
}

/// The (row, column) of the character index `k` of `v`.
fn row_col_at(v: &[char], k: usize) -> (rc: (usize, usize))
    requires
        k <= v.len(),
    ensures
        rc.0 == crate::edit::count_newlines(v@.take(k as int)),
        rc.1 == column_at(v@, k as int),
{
    let mut row: usize = 0;
    let mut col: usize = 0;
    let mut i: usize = 0;
    assert(v@.take(0) =~= Seq::<char>::empty());
    while i < k
        invariant
            i <= k <= v.len(),
            row == crate::edit::count_newlines(v@.take(i as int)),
            col == column_at(v@, i as int),
            row <= i,
            col <= i,
        decreases k - i,
    {
        assert(v@.take(i + 1).drop_last() =~= v@.take(i as int));
        if v[i] == '\n' {
            row = row + 1;
            col = 0;
        } else {
            col = col + 1;
        }
        i = i + 1;
    }
    (row, col)
}

fn clamp_to_u16(n: usize) -> (r: u16)
    ensures
        r == saturate_u16(n as int),
{
    if n > 65535 {
        65535
    } else {
        n as u16
    }
}

/// The (row, column) of the cursor at `byte_offset` in `content`; an offset
/// past the end is taken as the end, and each coordinate saturates at
/// `u16::MAX`.
pub fn cursor_position_from_byte_offset(content: &str, byte_offset: usize) -> (rc: (u16, u16))
    requires
        is_boundary(content@, min_usize(byte_offset, byte_len(content@))),
    ensures
        ({
            let k = char_index_at_byte(
                content@,
                min_usize(byte_offset, byte_len(content@)) as int,
            );
            &&& rc.0 == saturate_u16(crate::edit::count_newlines(content@.take(k)) as int)
            &&& rc.1 == saturate_u16(column_at(content@, k))
        }),
{
    let chars = chars_of(content);
    let total = str_byte_len(content);
    let offset = if byte_offset < total {
        byte_offset
    } else {
        total
    };
    let k = char_index_for_offset(&chars, offset);
    let (row, col) = row_col_at(&chars, k);
    (clamp_to_u16(row), clamp_to_u16(col))
}

pub open spec fn min_usize(a: usize, b: nat) -> int {
    if a < b {
        a as int
    } else {
        b as int
    }
}

/// The character index of `v` at byte offset `off`, which is a boundary.
pub(crate) fn char_index_for_offset(v: &[char], off: usize) -> (k: usize)
    requires
        is_boundary(v@, off as int),
        byte_len(v@) <= usize::MAX,
    ensures
        k <= v.len(),
        byte_offset(v@, k as int) == off,
        k == char_index_at_byte(v@, off as int),
{
    let ghost w = choose|k: int| 0 <= k <= v@.len() && #[trigger] byte_offset(v@, k) == off;
    let offs = byte_offsets(v);
    let mut k: usize = 0;
    while k < v.len() && offs[k] != off
        invariant
            k <= v.len(),
            0 <= w <= v.len(),
            byte_offset(v@, w) == off,
            offs.len() == v.len() + 1,
            forall|j: int| 0 <= j <= v.len() ==> offs@[j] == byte_offset(v@, j),
            forall|j: int| 0 <= j < k ==> offs@[j] != off,
        decreases v.len() - k,
    {
        k = k + 1;
    }
    proof {
        assert(offs@[k as int] == off) by {
            if offs@[k as int] != off {
                assert(offs@[w] == off);
            }
        }
        lemma_byte_offset_injective(v@, w, k as int);
    }
    k
}

/// The first code point handed out as an attachment token.
pub const FIRST_ATTACHMENT_TOKEN: u32 = 0xE000;

/// `v` is a token code point that no attachment in `toks` uses.
pub open spec fn is_free_token(toks: Seq<char>, v: int) -> bool {
    0xE000 <= v <= 0xF8FF && !toks.contains(v as char)
}

/// No code point in `lo..hi` is a free token.
#[verifier::opaque]
pub open spec fn none_free_between(toks: Seq<char>, lo: int, hi: int) -> bool {
    forall|w: int| lo <= w < hi ==> !is_free_token(toks, w)
}

/// The text after each attachment token renumbered: every token of `toks`
/// is followed by the label of its position among the tokens (counting on
/// from `n`), in place of any label that followed it before.
pub open spec fn renumbered(s: Seq<char>, toks: Seq<char>, n: nat) -> Seq<char>
    decreases s.len(),
{
    if s.len() == 0 {
        Seq::empty()
    } else if toks.contains(s[0]) {
        let r = s.drop_first();
        proof {
            lemma_label_bound(r);
        }
        seq![s[0]] + image_label(n + 1) + renumbered(r.skip(label_or_zero(r) as int), toks, n + 1)
    } else {
        seq![s[0]] + renumbered(s.drop_first(), toks, n)
    }
}

/// The tokens of `toks` that the renumbering pass meets in `s`, in order
/// (a token inside a label that it skips is not met).
pub open spec fn seen_tokens(s: Seq<char>, toks: Seq<char>) -> Seq<char>
    decreases s.len(),
{
    if s.len() == 0 {
        Seq::empty()
    } else if toks.contains(s[0]) {
        let r = s.drop_first();
        proof {
            lemma_label_bound(r);
        }
        seq![s[0]] + seen_tokens(r.skip(label_or_zero(r) as int), toks)
    } else {
        seen_tokens(s.drop_first(), toks)
    }
}

/// The attachments of `v` whose token is in `kept`, in order.
pub open spec fn kept_attachments(v: Seq<PendingAttachment>, kept: Seq<char>) -> Seq<
    PendingAttachment,
> {
    v.filter(|a: PendingAttachment| kept.contains(a.token))
}

/// The first span of `sp` whose byte range holds `target`, or `sp.len()`.
pub open spec fn first_hit_from(s: Seq<char>, sp: Seq<(char, int, int)>, target: int, k: int) -> int
    decreases sp.len() - k,
{
    if k < 0 || k >= sp.len() {
        sp.len() as int
    } else if byte_offset(s, sp[k].1) <= target < byte_offset(s, sp[k].2) {
        k
    } else {
        first_hit_from(s, sp, target, k + 1)
    }
}

/// The byte offset whose character an atomic delete would remove: the one
/// under the cursor when deleting forward, the one before it otherwise.
pub open spec fn delete_target(s: Seq<char>, cursor: usize, delete_forward: bool) -> Option<int> {
    let c = min_usize(cursor, byte_len(s));
    if delete_forward {
        if c >= byte_len(s) {
            None
        } else {
            Some(c)
        }
    } else if c == 0 {
        None
    } else {
        Some(byte_offset(s, char_index_at_byte(s, c) - 1) as int)
    }
}

fn contains_char(v: &[char], c: char) -> (b: bool)
    ensures
        b == v@.contains(c),
{
    let mut i: usize = 0;
    while i < v.len()
        invariant
            i <= v.len(),
            forall|k: int| 0 <= k < i ==> v@[k] != c,
        decreases v.len() - i,
    {
        if v[i] == c {
            return true;
        }
        i = i + 1;
    }
    false
}

/// The images attached to the message being composed, each with the
/// private-use character that marks its place in the input.
pub struct AttachmentTray {
    pub pending: Vec<PendingAttachment>,
    pub next_token: u32,
}

impl AttachmentTray {
    pub fn new() -> (t: AttachmentTray)
        ensures
            t.pending@.len() == 0,
            t.next_token == FIRST_ATTACHMENT_TOKEN,
    {
        AttachmentTray { pending: Vec::new(), next_token: FIRST_ATTACHMENT_TOKEN }
    }

    /// Drops every pending attachment and hands out tokens from the start again.
    pub fn reset(&mut self)
        ensures
            final(self).pending@.len() == 0,
            final(self).next_token == FIRST_ATTACHMENT_TOKEN,
    {
        self.pending = Vec::new();
        self.next_token = FIRST_ATTACHMENT_TOKEN;
    }

    /// Drops every pending attachment (once the message is sent).
    pub fn clear(&mut self)
        ensures
            final(self).pending@.len() == 0,
            final(self).next_token == old(self).next_token,
    {
        self.pending = Vec::new();
    }

    pub fn has_pending(&self) -> (b: bool)
        ensures
            b == (self.pending@.len() > 0),
    {
        self.pending.len() > 0
    }

    /// The next unused token, searching up from `next_token`: the first code
    /// point of the private-use block that no pending attachment uses.
    /// `next_token` moves past the code point returned, or past the end of
    /// the code space when none is left.
    pub fn next_attachment_token(&mut self) -> (r: Option<char>)
        ensures
            final(self).pending == old(self).pending,
            match r {
                Some(t) => {
                    &&& is_free_token(tokens_of(old(self).pending@), t as u32 as int)
                    &&& old(self).next_token <= t as u32
                    &&& none_free_between(
                        tokens_of(old(self).pending@),
                        old(self).next_token as int,
                        t as u32 as int,
                    )
                    &&& final(self).next_token == t as u32 + 1
                },
                None => {
                    &&& final(self).next_token == if old(self).next_token <= 0x10FFFF {
                        0x110000
                    } else {
                        old(self).next_token as int
                    }
                    &&& none_free_between(
                        tokens_of(old(self).pending@),
                        old(self).next_token as int,
                        0x110000,
                    )
                },
            },
    {
        let ghost toks = tokens_of(self.pending@);
        let ghost start = self.next_token;
        let max: u32 = 0x0010_FFFF;
        while self.next_token <= max
            invariant
                self.pending == old(self).pending,
                toks == tokens_of(self.pending@),
                start == old(self).next_token,
                max == 0x10FFFF,
                start <= self.next_token,
                self.next_token <= 0x110000 || self.next_token == start,
                forall|w: int| start <= w < self.next_token ==> !is_free_token(toks, w),
            decreases 0x110000 - self.next_token,
        {
            proof {
                reveal(none_free_between);
            }
            let candidate = self.next_token;
            self.next_token = self.next_token + 1;
            if candidate < 0xE000 || candidate > 0xF8FF {
                continue;
            }
            let token = match char_from_u32(candidate) {
                Some(t) => t,
                None => {
                    continue;
                },
            };
            proof {
                vstd::utf8::char_u32_cast(token, candidate);
            }
            if let Some(k) = find_owner(&self.pending, token) {
                proof {
                    lemma_owner_from(toks, token, 0);
                    assert(toks[k as int] == token);
                }
                continue;
            }
            proof {
                reveal(none_free_between);
            }
            return Some(token);
        }
        proof {
            reveal(none_free_between);
        }
        None
    }

    /// Drops the first pending attachment whose token is `token`, if any.
    pub fn remove_attachment_for_token(&mut self, token: char)
        ensures
            final(self).next_token == old(self).next_token,
            tokens_ok(old(self).pending@) ==> tokens_ok(final(self).pending@),
            final(self).pending@ == if tokens_of(old(self).pending@).contains(token) {
                old(self).pending@.remove(owner(tokens_of(old(self).pending@), token))
            } else {
                old(self).pending@
            },
    {
        if let Some(index) = find_owner(&self.pending, token) {
            proof {
                lemma_owner_from(tokens_of(self.pending@), token, 0);
                assert(tokens_of(self.pending@)[index as int] == token);
            }
            proof {
                if tokens_ok(self.pending@) {
                    lemma_remove_keeps_tokens_ok(self.pending@, index as int);
                }
            }
            self.pending.remove(index);
        }
    }

    /// Attaches `image` under a fresh token and returns the text to insert
    /// at the cursor: the token followed by its label.  Returns `None`, and
    /// attaches nothing, when no token is left.
    pub fn add_pending_attachment(&mut self, image: ImageContent) -> (r: Option<String>)
        ensures
            tokens_ok(old(self).pending@) ==> tokens_ok(final(self).pending@),
            match r {
                Some(text) => {
                    &&& final(self).pending@.len() == old(self).pending@.len() + 1
                    &&& final(self).pending@.drop_last() == old(self).pending@
                    &&& final(self).pending@.last().image == image
                    &&& is_free_token(
                        tokens_of(old(self).pending@),
                        final(self).pending@.last().token as u32 as int,
                    )
                    &&& text@ == seq![final(self).pending@.last().token] + image_label(
                        final(self).pending@.len(),
                    )
                },
                None => {
                    &&& final(self).pending@ == old(self).pending@
                    &&& none_free_between(
                        tokens_of(old(self).pending@),
                        old(self).next_token as int,
                        0x110000,
                    )
                },
            },
    {
        let ghost p0 = self.pending@;
        let token = match self.next_attachment_token() {
            Some(t) => t,
            None => {
                return None;
            },
        };
        let ghost before = self.pending@;
        let text = self.push_attachment(image, token);
        proof {
            if tokens_ok(before) {
                lemma_push_keeps_tokens_ok(before, PendingAttachment { image, token });
            }
        }
        Some(text)
    }

    /// Appends the attachment and returns its token followed by its label.
    fn push_attachment(&mut self, image: ImageContent, token: char) -> (text: String)
        ensures
            final(self).next_token == old(self).next_token,
            final(self).pending@ == old(self).pending@.push(PendingAttachment { image, token }),
            final(self).pending@.len() == old(self).pending@.len() + 1,
            final(self).pending@.drop_last() == old(self).pending@,
            final(self).pending@.last() == (PendingAttachment { image, token }),
            text@ == seq![token] + image_label(final(self).pending@.len()),
    {
        self.pending.push(PendingAttachment { image, token });
        assert(self.pending@.drop_last() =~= old(self).pending@);
        let image_number = self.pending.len();
        let mut text = String::new();
        push_char(&mut text, token);
        let label = format_inline_image_token(image_number);
        push_str(&mut text, label.as_str());
        text
    }

    /// Brings the attachments in line with the input text after an edit:
    /// attachments whose token is gone are dropped, and each remaining token
    /// gets the label of its position.  Returns the text the input should
    /// then hold; with no attachment left, every rendered label is stripped.
    pub fn sync_attachments_from_input_tokens(&mut self, content: &str) -> (r: String)
        ensures
            final(self).next_token == old(self).next_token,
            tokens_ok(old(self).pending@) ==> tokens_ok(final(self).pending@),
            old(self).pending@.len() == 0 ==> {
                &&& final(self).pending@ == old(self).pending@
                &&& r@ == stripped(content@)
            },
            old(self).pending@.len() > 0 ==> {
                let toks = tokens_of(old(self).pending@);
                let kept = kept_attachments(old(self).pending@, seen_tokens(content@, toks));
                &&& final(self).pending@ == kept
                &&& r@ == if kept.len() == 0 {
                    stripped(renumbered(content@, toks, 0))
                } else {
                    renumbered(content@, toks, 0)
                }
            },
    {
        if self.pending.len() == 0 {
            return strip_image_token_labels(content);
        }
        let ghost toks = tokens_of(self.pending@);
        let chars = chars_of(content);
        let mut normalized = String::new();
        let mut retained: Vec<char> = Vec::new();
        let mut image_number: usize = 0;
        let mut cursor: usize = 0;
        assert(chars@.skip(0) =~= content@);
        assert(normalized@ + renumbered(content@, toks, 0) =~= renumbered(content@, toks, 0));
        assert(retained@ + seen_tokens(content@, toks) =~= seen_tokens(content@, toks));
        while cursor < chars.len()
            invariant
                cursor <= chars.len(),
                image_number <= cursor,
                chars@ == content@,
                self.pending == old(self).pending,
                toks == tokens_of(self.pending@),
                normalized@ + renumbered(chars@.skip(cursor as int), toks, image_number as nat)
                    == renumbered(content@, toks, 0),
                retained@ + seen_tokens(chars@.skip(cursor as int), toks) == seen_tokens(
                    content@,
                    toks,
                ),
            decreases chars.len() - cursor,
        {
            let ch = chars[cursor];
            let ghost rest = chars@.skip(cursor as int);
            assert(rest.drop_first() =~= chars@.skip(cursor + 1));
            if find_owner(&self.pending, ch).is_some() {
                proof {
                    lemma_owner_from(toks, ch, 0);
                    assert(toks[owner(toks, ch)] == ch);
                }
                image_number = image_number + 1;
                let label = format_inline_image_token(image_number);
                retained.push(ch);
                push_char(&mut normalized, ch);
                push_str(&mut normalized, label.as_str());
                cursor = cursor + 1;
                let skip = match label_len_at(&chars, cursor) {
                    Some(n) => n,
                    None => 0,
                };
                proof {
                    let r = chars@.skip(cursor as int);
                    lemma_label_bound(r);
                    assert(r.skip(label_or_zero(r) as int) =~= chars@.skip(cursor + skip));
                }
                cursor = cursor + skip;
                continue;
            }
            push_char(&mut normalized, ch);
            cursor = cursor + 1;
        }
        assert(chars@.skip(cursor as int) =~= Seq::<char>::empty());
        assert(normalized@ =~= renumbered(content@, toks, 0));
        assert(retained@ =~= seen_tokens(content@, toks));
        proof {
            if tokens_ok(self.pending@) {
                lemma_filter_keeps_tokens_ok(self.pending@, retained@);
            }
        }
        self.retain_tokens(&retained);
        if self.pending.len() == 0 {
            strip_image_token_labels(normalized.as_str())
        } else {
            normalized
        }
    }

    /// Keeps only the attachments whose token is in `kept`.
    fn retain_tokens(&mut self, kept: &[char])
        ensures
            final(self).next_token == old(self).next_token,
            final(self).pending@ == kept_attachments(old(self).pending@, kept@),
    {
        let ghost orig = self.pending@;
        let mut rest: Vec<PendingAttachment> = Vec::new();
        core::mem::swap(&mut rest, &mut self.pending);
        let ghost pred = |a: PendingAttachment| kept@.contains(a.token);
        let ghost mut i: int = 0;
        proof {
            reveal(Seq::filter);
        }
        assert(orig.take(0) =~= Seq::<PendingAttachment>::empty());
        assert(orig.skip(0) =~= orig);
        while rest.len() > 0
            invariant
                0 <= i <= orig.len(),
                rest@ == orig.skip(i),
                self.pending@ == orig.take(i).filter(pred),
                self.next_token == old(self).next_token,
                pred == (|a: PendingAttachment| kept@.contains(a.token)),
            decreases rest.len(),
        {
            let a = rest.remove(0);
            proof {
                reveal(Seq::filter);
            }
            assert(orig.take(i + 1).drop_last() =~= orig.take(i));
            assert(orig.take(i + 1).last() == a);
            assert(rest@ =~= orig.skip(i + 1));
            if contains_char(kept, a.token) {
                self.pending.push(a);
            }
            proof {
                i = i + 1;
            }
        }
        assert(orig.take(i) =~= orig);
    }

    /// Deletes a whole attachment when backspace (or forward delete) would
    /// remove any character of its token or label: returns the input text
    /// without that span and the byte offset of the cursor afterwards, and
    /// drops the attachment.  Returns `None`, changing nothing, when there
    /// is no attachment, nothing to delete, or the character is not part of
    /// an attachment.
    pub fn handle_atomic_backspace_delete(
        &mut self,
        content: &str,
        cursor_offset: usize,
        delete_forward: bool,
    ) -> (r: Option<(String, usize)>)
        requires
            !delete_forward ==> is_boundary(
                content@,
                min_usize(cursor_offset, byte_len(content@)),
            ),
        ensures
            final(self).next_token == old(self).next_token,
            tokens_ok(old(self).pending@) ==> tokens_ok(final(self).pending@),
            ({
                let s = content@;
                let toks = tokens_of(old(self).pending@);
                let sp = token_spans(s, toks);
                match r {
                    None => {
                        &&& final(self).pending@ == old(self).pending@
                        &&& (old(self).pending@.len() == 0 || delete_target(
                            s,
                            cursor_offset,
                            delete_forward,
                        ) is None || first_hit_from(
                            s,
                            sp,
                            delete_target(s, cursor_offset, delete_forward)->0,
                            0,
                        ) == sp.len())
                    },
                    Some((text, new_cursor)) => {
                        let h = first_hit_from(
                            s,
                            sp,
                            delete_target(s, cursor_offset, delete_forward)->0,
                            0,
                        );
                        &&& old(self).pending@.len() > 0
                        &&& delete_target(s, cursor_offset, delete_forward) is Some
                        &&& 0 <= h < sp.len()
                        &&& text@ == s.take(sp[h].1) + s.skip(sp[h].2)
                        &&& new_cursor == byte_offset(s, sp[h].1)
                        &&& final(self).pending@ == old(self).pending@.remove(owner(toks, sp[h].0))
                    },
                }
            }),
    {
        if self.pending.len() == 0 {
            return None;
        }
        let ghost toks = tokens_of(self.pending@);
        let chars = chars_of(content);
        let total = str_byte_len(content);
        let offs = byte_offsets(&chars);
        let cursor = if cursor_offset < total {
            cursor_offset
        } else {
            total
        };
        let target = if delete_forward {
            if cursor >= total {
                return None;
            }
            cursor
        } else {
            if cursor == 0 {
                return None;
            }
            let k = char_index_for_offset(&chars, cursor);
            proof {
                if k == 0 {
                    assert(chars@.take(0) =~= Seq::<char>::empty());
                }
            }
            offs[k - 1]
        };
        let spans = attachment_spans(content, &self.pending);
        let ghost sp = token_spans(content@, toks);
        let ghost f = |x: (char, int, int)| byte_span(content@, x);
        let mut h: usize = 0;
        assert(span_view(spans@).len() == spans@.len());
        assert(sp.map_values(f).len() == sp.len());
        while h < spans.len() && !(spans[h].1 <= target && target < spans[h].2)
            invariant
                h <= spans.len(),
                spans.len() == sp.len(),
                span_view(spans@) == sp.map_values(f),
                f == (|x: (char, int, int)| byte_span(content@, x)),
                first_hit_from(content@, sp, target as int, 0) == first_hit_from(
                    content@,
                    sp,
                    target as int,
                    h as int,
                ),
            decreases spans.len() - h,
        {
            assert(span_view(spans@)[h as int] == sp.map_values(f)[h as int]);
            assert(span_view(spans@)[h as int] == (
                spans@[h as int].0,
                spans@[h as int].1 as int,
                spans@[h as int].2 as int,
            ));
            h = h + 1;
        }
        if h == spans.len() {
            return None;
        }
        assert(span_view(spans@)[h as int] == sp.map_values(f)[h as int]);
        assert(span_view(spans@)[h as int] == (
            spans@[h as int].0,
            spans@[h as int].1 as int,
            spans@[h as int].2 as int,
        ));
        proof {
            lemma_token_spans_from(content@, toks, 0);
        }
        let (token, start, end) = spans[h];
        let ghost a = sp[h as int].1;
        let ghost b = sp[h as int].2;
        let i0 = char_index_for_offset(&chars, start);
        let i1 = char_index_for_offset(&chars, end);
        proof {
            lemma_byte_offset_injective(chars@, i0 as int, a);
            lemma_byte_offset_injective(chars@, i1 as int, b);
        }
        let mut next_content = String::new();
        let head = sub_chars(&chars, 0, i0);
        let tail = sub_chars(&chars, i1, chars.len());
        push_str(&mut next_content, string_from_chars(&head).as_str());
        push_str(&mut next_content, string_from_chars(&tail).as_str());
        assert(next_content@ =~= content@.take(a) + content@.skip(b));
        self.remove_attachment_for_token(token);
        Some((next_content, start))
    }
}

/// Number of images among the parts `c`.
pub open spec fn image_count(c: Seq<UserContent>) -> nat
    decreases c.len(),
{
    if c.len() == 0 {
        0
    } else {
        image_count(c.drop_last()) + if c.last() is Image {
            1nat
        } else {
            0nat
        }
    }
}

/// The token given to the `k`-th image restored for editing (counting from 0).
pub open spec fn restore_token(k: nat) -> char {
    if FIRST_ATTACHMENT_TOKEN + k <= 0x10FFFF {
        (FIRST_ATTACHMENT_TOKEN + k) as char
    } else {
        '\u{E000}'
    }
}

/// The input text for editing a message with parts `c`: its texts, and for
/// each image its token and label.
pub open spec fn restored_text(c: Seq<UserContent>) -> Seq<char>
    decreases c.len(),
{
    if c.len() == 0 {
        Seq::empty()
    } else {
        let k = image_count(c.drop_last());
        restored_text(c.drop_last()) + match c.last() {
            UserContent::Text { text } => text@,
            UserContent::Image { .. } => seq![restore_token(k)] + image_label(k + 1),
        }
    }
}

/// The attachments restored for editing a message with parts `c`.
pub open spec fn restored_attachments(c: Seq<UserContent>) -> Seq<PendingAttachment>
    decreases c.len(),
{
    if c.len() == 0 {
        Seq::empty()
    } else {
        let k = image_count(c.drop_last());
        let prev = restored_attachments(c.drop_last());
        match c.last() {
            UserContent::Text { .. } => prev,
            UserContent::Image { image } => prev.push(
                PendingAttachment { image, token: restore_token(k) },
            ),
        }
    }
}

proof fn lemma_image_count_bound(c: Seq<UserContent>)
    ensures
        image_count(c) <= c.len(),
        restored_attachments(c).len() == image_count(c),
    decreases c.len(),
{
    if c.len() > 0 {
        lemma_image_count_bound(c.drop_last());
    }
}

impl AttachmentTray {
    /// Starts editing a message with parts `content`: the attachments are
    /// replaced by the message's images, under fresh tokens, and the text to
    /// edit is returned with each image shown as its token and label.
    pub fn restore_for_editing(&mut self, content: Vec<UserContent>) -> (text: String)
        requires
            content@.len() <= u32::MAX - FIRST_ATTACHMENT_TOKEN,
        ensures
            text@ == restored_text(content@),
            final(self).pending@ == restored_attachments(content@),
            final(self).next_token == FIRST_ATTACHMENT_TOKEN + image_count(content@),
    {
        self.pending = Vec::new();
        self.next_token = FIRST_ATTACHMENT_TOKEN;
        let ghost orig = content@;
        let mut rest = content;
        let mut text = String::new();
        let ghost mut i: int = 0;
        assert(orig.take(0) =~= Seq::<UserContent>::empty());
        assert(orig.skip(0) =~= orig);
        while rest.len() > 0
            invariant
                0 <= i <= orig.len(),
                orig.len() <= u32::MAX - FIRST_ATTACHMENT_TOKEN,
                rest@ == orig.skip(i),
                text@ == restored_text(orig.take(i)),
                self.pending@ == restored_attachments(orig.take(i)),
                self.next_token == FIRST_ATTACHMENT_TOKEN + image_count(orig.take(i)),
                image_count(orig.take(i)) <= i,
            decreases rest.len(),
        {
            let part = rest.remove(0);
            assert(orig.take(i + 1).drop_last() =~= orig.take(i));
            assert(orig.take(i + 1).last() == part);
            assert(rest@ =~= orig.skip(i + 1));
            match part {
                UserContent::Text { text: t } => {
                    push_str(&mut text, t.as_str());
                },
                UserContent::Image { image } => {
                    let token = match char_from_u32(self.next_token) {
                        Some(c) => c,
                        None => '\u{E000}',
                    };
                    proof {
                        let v = self.next_token;
                        if v <= 0x10FFFF {
                            assert(vstd::utf8::is_scalar(v));
                            vstd::utf8::char_u32_cast(token, v);
                        }
                    }
                    self.next_token = self.next_token + 1;
                    self.pending.push(PendingAttachment { image, token });
                    let image_number = self.pending.len();
                    proof {
                        lemma_image_count_bound(orig.take(i));
                    }
                    push_char(&mut text, token);
                    push_str(&mut text, format_inline_image_token(image_number).as_str());
                },
            }
            proof {
                i = i + 1;
            }
        }
        assert(orig.take(i) =~= orig);
        text
    }
}

/// Tokens of the pending attachments are private-use characters, each used once.
pub open spec fn tokens_ok(v: Seq<PendingAttachment>) -> bool {
    &&& forall|i: int| 0 <= i < v.len() ==> is_token_char(#[trigger] v[i].token)
    &&& forall|i: int, j: int| 0 <= i < j < v.len() ==> (#[trigger] v[i]).token != (#[trigger] v[j]).token
}

/// Text with no character of the private-use block (U+E000 to U+F8FF, the
/// characters tokens are drawn from) is left as it is by stripping labels.
pub proof fn law_strip_without_tokens_is_identity(s: Seq<char>)
    requires
        forall|i: int| 0 <= i < s.len() ==> !is_token_char(#[trigger] s[i]),
    ensures
        stripped(s) == s,
    decreases s.len(),
{
    if s.len() > 0 {
        assert forall|i: int| 0 <= i < s.drop_first().len() implies !is_token_char(#[trigger] s.drop_first()[i]) by {
            assert(s.drop_first()[i] == s[i + 1]);
        }
        law_strip_without_tokens_is_identity(s.drop_first());
        assert(seq![s[0]] + s.drop_first() =~= s);
    }
}

/// Whether `rest`, after leading whitespace, starts with a whole image
/// label `[Image ...]`.
pub open spec fn label_follows(rest: Seq<char>) -> bool {
    let t = rest.skip(ws_len(rest) as int);
    let j = close_index(t, 0);
    j < t.len() && j >= 6 && t.take(7) == image_prefix()
}

/// A token that no image label follows is kept, and stripping goes on
/// after it; one that a label follows is dropped with its label.
pub proof fn law_token_without_label_is_kept(c: char, rest: Seq<char>)
    requires
        is_token_char(c),
    ensures
        !label_follows(rest) ==> stripped(seq![c] + rest) == seq![c] + stripped(rest),
        label_follows(rest) ==> stripped(seq![c] + rest) == stripped(
            rest.skip(ws_len(rest) as int).skip(close_index(rest.skip(ws_len(rest) as int), 0) + 1),
        ),
{
    let s = seq![c] + rest;
    assert(s.drop_first() =~= rest);
    assert(s[0] == c);
}

proof fn lemma_no_token_pos(s: Seq<char>, i: int)
    requires
        0 <= i <= s.len(),
    ensures
        next_token_pos(s, Seq::<char>::empty(), i) == s.len(),
    decreases s.len() - i,
{
    if i < s.len() {
        lemma_no_token_pos(s, i + 1);
    }
}

/// Without attachments a message is one text part, its trimmed text, or
/// nothing when that is blank.
pub proof fn law_message_without_attachments_is_its_text(s: Seq<char>)
    ensures
        message_parts(s, Seq::empty()) == text_part(s),
{
    lemma_no_token_pos(s, 0);
}

/// Adding an attachment under a free token keeps the tokens private-use and distinct.
pub proof fn lemma_push_keeps_tokens_ok(v: Seq<PendingAttachment>, a: PendingAttachment)
    requires
        tokens_ok(v),
        is_free_token(tokens_of(v), a.token as u32 as int),
    ensures
        tokens_ok(v.push(a)),
{
    vstd::utf8::char_u32_cast(a.token, a.token as u32);
    let w = v.push(a);
    assert forall|i: int, j: int| 0 <= i < j < w.len() implies (#[trigger] w[i]).token != (#[trigger] w[j]).token by {
        if j == v.len() {
            assert(w[i] == v[i]);
            assert(tokens_of(v)[i] == v[i].token);
        } else {
            assert(w[i] == v[i] && w[j] == v[j]);
        }
    }
    assert forall|i: int| 0 <= i < w.len() implies is_token_char(#[trigger] w[i].token) by {
        if i < v.len() {
            assert(w[i] == v[i]);
        }
    }
}

/// Removing a token keeps the tokens private-use and distinct.
pub proof fn lemma_remove_keeps_tokens_ok(v: Seq<PendingAttachment>, k: int)
    requires
        tokens_ok(v),
        0 <= k < v.len(),
    ensures
        tokens_ok(v.remove(k)),
{
    let w = v.remove(k);
    assert forall|i: int, j: int| 0 <= i < j < w.len() implies (#[trigger] w[i]).token != (#[trigger] w[j]).token by {
        let i0 = if i < k { i } else { i + 1 };
        let j0 = if j < k { j } else { j + 1 };
        assert(w[i] == v[i0] && w[j] == v[j0]);
    }
    assert forall|i: int| 0 <= i < w.len() implies is_token_char(#[trigger] w[i].token) by {
        let i0 = if i < k { i } else { i + 1 };
        assert(w[i] == v[i0]);
    }
}

/// Keeping a part of the attachments keeps the tokens private-use and distinct.
pub proof fn lemma_filter_keeps_tokens_ok(v: Seq<PendingAttachment>, kept: Seq<char>)
    requires
        tokens_ok(v),
    ensures
        tokens_ok(kept_attachments(v, kept)),
    decreases v.len(),
{
    reveal(Seq::filter);
    let pred = |a: PendingAttachment| kept.contains(a.token);
    if v.len() > 0 {
        let prev = v.drop_last();
        assert forall|i: int, j: int| 0 <= i < j < prev.len() implies (#[trigger] prev[i]).token != (#[trigger] prev[j]).token by {
            assert(prev[i] == v[i] && prev[j] == v[j]);
        }
        assert forall|i: int| 0 <= i < prev.len() implies is_token_char(#[trigger] prev[i].token) by {
            assert(prev[i] == v[i]);
        }
        lemma_filter_keeps_tokens_ok(prev, kept);
        let f = prev.filter(pred);
        assert(kept_attachments(prev, kept) == f);
        if pred(v.last()) {
            let g = f.push(v.last());
            assert forall|i: int| 0 <= i < f.len() implies (#[trigger] f[i]).token != v.last().token by {
                assert(f.contains(f[i]));
                prev.lemma_filter_contains_rev(pred, f[i]);
                assert(prev.contains(f[i]));
                let j = choose|j: int| 0 <= j < prev.len() && prev[j] == f[i];
                assert(prev[j] == v[j]);
                assert(v[j].token != v[v.len() - 1].token);
            }
            assert forall|i: int, j: int| 0 <= i < j < g.len() implies (#[trigger] g[i]).token != (#[trigger] g[j]).token by {
                if j == f.len() {
                    assert(g[j] == v.last());
                    assert(g[i] == f[i]);
                } else {
                    assert(g[i] == f[i] && g[j] == f[j]);
                }
            }
            assert forall|i: int| 0 <= i < g.len() implies is_token_char(#[trigger] g[i].token) by {
                if i == f.len() {
                    assert(g[i] == v[v.len() - 1]);
                } else {
                    assert(g[i] == f[i]);
                }
            }
        }
    }
}

proof fn lemma_decimal_digits(n: nat)
    ensures
        forall|i: int| 0 <= i < decimal(n).len() ==> #[trigger] decimal(n)[i] != ']',
        decimal(n).len() >= 1,
    decreases n,
{
    if n >= 10 {
        lemma_decimal_digits(n / 10);
        let d = decimal(n / 10);
        assert forall|i: int| 0 <= i < decimal(n).len() implies #[trigger] decimal(n)[i] != ']' by {
            if i < d.len() {
                assert(decimal(n)[i] == d[i]);
            }
        }
    }
}

/// A rendered label is recognised as one, through its closing bracket.
proof fn lemma_label_of_image_label(n: nat, rest: Seq<char>)
    ensures
        label_or_zero(image_label(n) + rest) == image_label(n).len(),
        (image_label(n) + rest).skip(image_label(n).len() as int) == rest,
{
    let l = image_label(n);
    let t = l + rest;
    lemma_decimal_digits(n);
    let d = decimal(n);
    let e: int = 7int + d.len() as int;
    assert(l.len() == e + 1);
    assert forall|k: int| 0 <= k < e implies t[k] != ']' by {
        if k < 7 {
            assert(t[k] == image_prefix()[k]);
        } else {
            assert(t[k] == d[k - 7]);
        }
    }
    assert(t[e] == ']');
    lemma_close_from(t, 0, e);
    assert(t.take(7) =~= image_prefix());
    assert(t.skip(l.len() as int) =~= rest);
}

proof fn lemma_close_from(t: Seq<char>, i: int, e: int)
    requires
        0 <= i <= e < t.len(),
        t[e] == ']',
        forall|k: int| i <= k < e ==> t[k] != ']',
    ensures
        close_index(t, i) == e,
    decreases e - i,
{
    if i < e {
        lemma_close_from(t, i + 1, e);
    }
}

/// Renumbering text that was already renumbered changes nothing, and meets
/// the same tokens, when the tokens looked for are among the first ones and
/// include every token met.
proof fn lemma_renumber_twice(s: Seq<char>, toks: Seq<char>, toks2: Seq<char>, m: nat)
    requires
        forall|c: char| toks2.contains(c) ==> toks.contains(c),
        forall|c: char| seen_tokens(s, toks).contains(c) ==> toks2.contains(c),
    ensures
        renumbered(renumbered(s, toks, m), toks2, m) == renumbered(s, toks, m),
        seen_tokens(renumbered(s, toks, m), toks2) == seen_tokens(s, toks),
    decreases s.len(),
{
    if s.len() > 0 {
        let c = s[0];
        if toks.contains(c) {
            let r = s.drop_first();
            lemma_label_bound(r);
            let rest = r.skip(label_or_zero(r) as int);
            assert(seen_tokens(s, toks) == seq![c] + seen_tokens(rest, toks));
            assert(seen_tokens(s, toks)[0] == c);
            assert(toks2.contains(c));
            assert forall|x: char| seen_tokens(rest, toks).contains(x) implies toks2.contains(x) by {
                let j = choose|j: int| 0 <= j < seen_tokens(rest, toks).len() && seen_tokens(rest, toks)[j] == x;
                assert(seen_tokens(s, toks)[j + 1] == x);
            }
            lemma_renumber_twice(rest, toks, toks2, m + 1);
            let big = renumbered(rest, toks, m + 1);
            let out = renumbered(s, toks, m);
            assert(out == seq![c] + image_label(m + 1) + big);
            lemma_label_of_image_label(m + 1, big);
            assert(out.drop_first() =~= image_label(m + 1) + big);
            assert(out[0] == c);
        } else {
            let r = s.drop_first();
            assert(seen_tokens(s, toks) == seen_tokens(r, toks));
            lemma_renumber_twice(r, toks, toks2, m);
            let out = renumbered(s, toks, m);
            assert(out == seq![c] + renumbered(r, toks, m));
            assert(out[0] == c);
            assert(!toks2.contains(c));
            assert(out.drop_first() =~= renumbered(r, toks, m));
        }
    }
}

proof fn lemma_filter_twice(v: Seq<PendingAttachment>, kept: Seq<char>)
    ensures
        kept_attachments(kept_attachments(v, kept), kept) == kept_attachments(v, kept),
    decreases v.len(),
{
    reveal(Seq::filter);
    let pred = |a: PendingAttachment| kept.contains(a.token);
    if v.len() > 0 {
        lemma_filter_twice(v.drop_last(), kept);
        let f = v.drop_last().filter(pred);
        if pred(v.last()) {
            assert(f.push(v.last()).drop_last() =~= f);
        }
    }
}

/// Tokens of the attachments kept are tokens met in the text, and every
/// token met belongs to an attachment that is kept.
proof fn lemma_kept_tokens(v: Seq<PendingAttachment>, kept: Seq<char>)
    ensures
        forall|c: char| tokens_of(kept_attachments(v, kept)).contains(c) ==> tokens_of(v).contains(c),
        forall|c: char| kept.contains(c) && tokens_of(v).contains(c) ==> tokens_of(kept_attachments(v, kept)).contains(c),
    decreases v.len(),
{
    reveal(Seq::filter);
    let pred = |a: PendingAttachment| kept.contains(a.token);
    if v.len() > 0 {
        let prev = v.drop_last();
        lemma_kept_tokens(prev, kept);
        let f = prev.filter(pred);
        let g = v.filter(pred);
        assert(g == if pred(v.last()) { f.push(v.last()) } else { f });
        assert forall|c: char| tokens_of(g).contains(c) implies tokens_of(v).contains(c) by {
            let j = choose|j: int| 0 <= j < tokens_of(g).len() && tokens_of(g)[j] == c;
            if j < f.len() {
                assert(g[j] == f[j]);
                assert(tokens_of(f)[j] == c);
                assert(tokens_of(f).contains(c));
                assert(tokens_of(kept_attachments(prev, kept)).contains(c));
                assert(tokens_of(prev).contains(c));
                let k = choose|k: int| 0 <= k < tokens_of(prev).len() && tokens_of(prev)[k] == c;
                assert(tokens_of(v)[k] == c);
            } else {
                assert(g[j] == v.last());
                assert(tokens_of(v)[v.len() - 1] == c);
            }
        }
        assert forall|c: char| kept.contains(c) && tokens_of(v).contains(c) implies tokens_of(g).contains(c) by {
            let k = choose|k: int| 0 <= k < tokens_of(v).len() && tokens_of(v)[k] == c;
            if k < prev.len() {
                assert(tokens_of(prev)[k] == c);
                assert(tokens_of(prev).contains(c));
                assert(tokens_of(kept_attachments(prev, kept)).contains(c));
                let j = choose|j: int| 0 <= j < tokens_of(f).len() && tokens_of(f)[j] == c;
                assert(g[j] == f[j]);
                assert(tokens_of(g)[j] == c);
            } else {
                assert(pred(v.last()));
                assert(g[f.len() as int] == v.last());
                assert(tokens_of(g)[f.len() as int] == c);
            }
        }
    }
}

/// Bringing the attachments in line with a text twice is doing it once:
/// when an attachment is left, the second pass keeps the same attachments
/// and the same text.
pub proof fn law_sync_is_stable(pending: Seq<PendingAttachment>, s: Seq<char>)
    requires
        kept_attachments(pending, seen_tokens(s, tokens_of(pending))).len() > 0,
    ensures
        ({
            let toks = tokens_of(pending);
            let kept = kept_attachments(pending, seen_tokens(s, toks));
            let r = renumbered(s, toks, 0);
            &&& renumbered(r, tokens_of(kept), 0) == r
            &&& kept_attachments(kept, seen_tokens(r, tokens_of(kept))) == kept
        }),
{
    let toks = tokens_of(pending);
    let seen = seen_tokens(s, toks);
    let kept = kept_attachments(pending, seen);
    lemma_kept_tokens(pending, seen);
    lemma_seen_are_tokens(s, toks);
    lemma_renumber_twice(s, toks, tokens_of(kept), 0);
    lemma_filter_twice(pending, seen);
}

proof fn lemma_seen_are_tokens(s: Seq<char>, toks: Seq<char>)
    ensures
        forall|c: char| seen_tokens(s, toks).contains(c) ==> toks.contains(c),
    decreases s.len(),
{
    if s.len() > 0 {
        let r = s.drop_first();
        if toks.contains(s[0]) {
            lemma_label_bound(r);
            let rest = r.skip(label_or_zero(r) as int);
            lemma_seen_are_tokens(rest, toks);
            assert forall|c: char| seen_tokens(s, toks).contains(c) implies toks.contains(c) by {
                let j = choose|j: int| 0 <= j < seen_tokens(s, toks).len() && seen_tokens(s, toks)[j] == c;
                if j > 0 {
                    assert(seen_tokens(rest, toks)[j - 1] == c);
                }
            }
        } else {
            lemma_seen_are_tokens(r, toks);
        }
    }
}

} // verus!
