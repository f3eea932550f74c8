//! The find-and-replace edit engine behind `edit_file` and `multi_edit`.
//!
//! Text is handled as a sequence of characters: an occurrence of a
//! pattern is found at the same characters whether one counts bytes or
//! characters, since UTF-8 never matches across a character boundary.

use vstd::prelude::*;
use crate::error::{
    EditFailure, EditFailureModel, EditMatchPreview, WorkspaceError, WorkspaceErrorModel,
    previews_view,
};
use crate::ops::{EditMatchSelection, EditOperation};
use crate::text::{
    chars_of, decimal, push_str, string_from_chars, sub_chars, trim_end_index, trim_end_seq,
    u64_to_decimal,
};

verus! {

/// At most this many occurrences are previewed in a non-unique match error.
pub const MAX_NON_UNIQUE_MATCH_PREVIEWS: usize = 5;

/// Previewed lines are cut to this many characters.
pub const MAX_MATCH_PREVIEW_SNIPPET_CHARS: usize = 120;

/// `p` occurs in `s` at index `i`.
pub open spec fn matches_at(s: Seq<char>, p: Seq<char>, i: int) -> bool {
    0 <= i && i + p.len() <= s.len() && s.subrange(i, i + p.len()) == p
}

/// The start indices of the non-overlapping occurrences of `p` in `s` at or
/// after `i`, found from left to right (as `str::match_indices` finds them).
pub open spec fn match_starts_from(s: Seq<char>, p: Seq<char>, i: int) -> Seq<int>
    decreases s.len() - i,
{
    if p.len() == 0 || i < 0 || i + p.len() > s.len() {
        Seq::empty()
    } else if matches_at(s, p, i) {
        seq![i] + match_starts_from(s, p, i + p.len())
    } else {
        match_starts_from(s, p, i + 1)
    }
}

/// The start indices of the non-overlapping occurrences of `p` in `s`.
pub open spec fn match_starts(s: Seq<char>, p: Seq<char>) -> Seq<int> {
    match_starts_from(s, p, 0)
}

/// `s` with every non-overlapping occurrence of `p` at or after `i` replaced by
/// `r`, the part before `i` dropped (`str::replace` when `i` is 0).
pub open spec fn replace_all_from(s: Seq<char>, p: Seq<char>, r: Seq<char>, i: int) -> Seq<char>
    decreases s.len() - i,
{
    if p.len() == 0 || i < 0 || i > s.len() {
        s
    } else if i + p.len() > s.len() {
        s.subrange(i, s.len() as int)
    } else if matches_at(s, p, i) {
        r + replace_all_from(s, p, r, i + p.len())
    } else {
        seq![s[i]] + replace_all_from(s, p, r, i + 1)
    }
}

/// `s` with every non-overlapping occurrence of `p` replaced by `r`.
pub open spec fn replace_all(s: Seq<char>, p: Seq<char>, r: Seq<char>) -> Seq<char> {
    replace_all_from(s, p, r, 0)
}

/// Positions, each at least `plen` after the previous one, within `[lo, hi - plen]`.
pub open spec fn spaced(pos: Seq<int>, plen: int, lo: int, hi: int) -> bool {
    &&& forall|k: int| 0 <= k < pos.len() ==> lo <= #[trigger] pos[k] && pos[k] + plen <= hi
    &&& forall|k: int, j: int|
        0 <= k < j < pos.len() ==> #[trigger] pos[k] + plen <= #[trigger] pos[j]
}

/// `s` from `cursor` on, with the `plen` characters at each of `pos` replaced by `r`.
pub open spec fn splice(s: Seq<char>, pos: Seq<int>, plen: int, r: Seq<char>, cursor: int) -> Seq<
    char,
>
    decreases pos.len(),
{
    if pos.len() == 0 {
        s.subrange(cursor, s.len() as int)
    } else {
        s.subrange(cursor, pos[0]) + r + splice(s, pos.drop_first(), plen, r, pos[0] + plen)
    }
}

pub proof fn lemma_match_starts_spaced(s: Seq<char>, p: Seq<char>, i: int)
    requires
        p.len() > 0,
        0 <= i,
    ensures
        spaced(match_starts_from(s, p, i), p.len() as int, i, s.len() as int),
        forall|k: int|
            0 <= k < match_starts_from(s, p, i).len() ==> matches_at(
                s,
                p,
                #[trigger] match_starts_from(s, p, i)[k],
            ),
    decreases s.len() - i,
{
    if i + p.len() > s.len() {
    } else if matches_at(s, p, i) {
        lemma_match_starts_spaced(s, p, i + p.len());
        let rest = match_starts_from(s, p, i + p.len());
        let all = seq![i] + rest;
        assert(match_starts_from(s, p, i) == all);
        assert forall|k: int| 0 <= k < all.len() implies matches_at(s, p, #[trigger] all[k]) by {
            if k > 0 {
                assert(all[k] == rest[k - 1]);
            }
        }
        assert forall|k: int, j: int| 0 <= k < j < all.len() implies #[trigger] all[k] + p.len()
            <= #[trigger] all[j] by {
            if k > 0 {
                assert(all[k] == rest[k - 1]);
            }
            assert(all[j] == rest[j - 1]);
        }
        assert forall|k: int| 0 <= k < all.len() implies i <= #[trigger] all[k] && all[k] + p.len()
            <= s.len() by {
            if k > 0 {
                assert(all[k] == rest[k - 1]);
            }
        }
    } else {
        lemma_match_starts_spaced(s, p, i + 1);
    }
}

/// Every occurrence of `p` at or after `i` that the scan reaches is listed:
/// in particular the first listed start is the first occurrence at or after `i`.
pub proof fn lemma_first_match_is_leftmost(s: Seq<char>, p: Seq<char>, i: int, j: int)
    requires
        p.len() > 0,
        0 <= i <= j,
        matches_at(s, p, j),
    ensures
        match_starts_from(s, p, i).len() > 0,
        match_starts_from(s, p, i)[0] <= j,
    decreases j - i,
{
    if matches_at(s, p, i) {
    } else {
        lemma_first_match_is_leftmost(s, p, i + 1, j);
    }
}

proof fn lemma_splice_shift(s: Seq<char>, pos: Seq<int>, plen: int, r: Seq<char>, i: int)
    requires
        0 <= i < s.len(),
        pos.len() > 0 ==> i + 1 <= pos[0] <= s.len(),
    ensures
        splice(s, pos, plen, r, i) == seq![s[i]] + splice(s, pos, plen, r, i + 1),
{
    if pos.len() == 0 {
        assert(s.subrange(i, s.len() as int) =~= seq![s[i]] + s.subrange(i + 1, s.len() as int));
    } else {
        let rest = splice(s, pos.drop_first(), plen, r, pos[0] + plen);
        assert(s.subrange(i, pos[0]) =~= seq![s[i]] + s.subrange(i + 1, pos[0]));
        assert(s.subrange(i, pos[0]) + r + rest =~= seq![s[i]] + (s.subrange(i + 1, pos[0]) + r
            + rest));
    }
}

/// Splicing `r` in at every occurrence is replacing all occurrences.
pub proof fn lemma_splice_all_is_replace_all(s: Seq<char>, p: Seq<char>, r: Seq<char>, i: int)
    requires
        p.len() > 0,
        0 <= i <= s.len(),
    ensures
        splice(s, match_starts_from(s, p, i), p.len() as int, r, i) == replace_all_from(s, p, r, i),
    decreases s.len() - i,
{
    let m = match_starts_from(s, p, i);
    if i + p.len() > s.len() {
    } else if matches_at(s, p, i) {
        let rest = match_starts_from(s, p, i + p.len());
        lemma_splice_all_is_replace_all(s, p, r, i + p.len());
        assert(m == seq![i] + rest);
        assert(m.drop_first() =~= rest);
        assert(s.subrange(i, i) =~= Seq::<char>::empty());
        assert(splice(s, m, p.len() as int, r, i) =~= r + splice(
            s,
            rest,
            p.len() as int,
            r,
            i + p.len(),
        ));
    } else {
        lemma_splice_all_is_replace_all(s, p, r, i + 1);
        lemma_match_starts_spaced(s, p, i + 1);
        lemma_splice_shift(s, m, p.len() as int, r, i);
    }
}

/// A located occurrence: characters `start..end` of the content.
#[derive(Debug, Clone, Copy)]
pub struct EditMatchLocation {
    pub start: usize,
    pub end: usize,
}

/// The start indices of a list of locations.
pub open spec fn starts_of(locs: Seq<EditMatchLocation>) -> Seq<int> {
    locs.map_values(|l: EditMatchLocation| l.start as int)
}

/// Every location spans `plen` characters.
pub open spec fn all_span(locs: Seq<EditMatchLocation>, plen: int) -> bool {
    forall|k: int| 0 <= k < locs.len() ==> #[trigger] locs[k].end == locs[k].start + plen
}

fn occurs_at(s: &[char], p: &[char], i: usize) -> (b: bool)
    requires
        i + p.len() <= s.len(),
    ensures
        b == matches_at(s@, p@, i as int),
{
    let mut j: usize = 0;
    while j < p.len()
        invariant
            i + p.len() <= s.len(),
            j <= p.len(),
            forall|t: int| 0 <= t < j ==> s@[i + t] == p@[t],
        decreases p.len() - j,
    {
        if s[i + j] != p[j] {
            assert(s@.subrange(i as int, i + p.len())[j as int] != p@[j as int]);
            return false;
        }
        j = j + 1;
    }
    assert(s@.subrange(i as int, i + p.len()) =~= p@);
    true
}

/// The non-overlapping occurrences of `pattern` in `content`, left to right.
pub fn find_match_locations(content: &[char], pattern: &[char]) -> (locs: Vec<EditMatchLocation>)
    requires
        pattern.len() > 0,
    ensures
        starts_of(locs@) == match_starts(content@, pattern@),
        all_span(locs@, pattern.len() as int),
{
    let mut locs: Vec<EditMatchLocation> = Vec::new();
    if pattern.len() > content.len() {
        return locs;
    }
    let last = content.len() - pattern.len();
    let mut i: usize = 0;
    while i <= last
        invariant
            pattern.len() > 0,
            last + pattern.len() == content.len(),
            i <= last + pattern.len(),
            match_starts(content@, pattern@) == starts_of(locs@) + match_starts_from(
                content@,
                pattern@,
                i as int,
            ),
            all_span(locs@, pattern.len() as int),
        decreases last + pattern.len() - i,
    {
        let ghost before = locs@;
        if occurs_at(content, pattern, i) {
            locs.push(EditMatchLocation { start: i, end: i + pattern.len() });
            assert(starts_of(locs@) =~= starts_of(before) + seq![i as int]);
            i = i + pattern.len();
        } else {
            i = i + 1;
        }
    }
    assert(match_starts_from(content@, pattern@, i as int) =~= Seq::<int>::empty());
    assert(starts_of(locs@) + Seq::<int>::empty() =~= starts_of(locs@));
    locs
}

/// Start of the line holding index `i`.
pub open spec fn line_start_of(s: Seq<char>, i: int) -> int
    decreases i,
{
    if i <= 0 {
        0
    } else if s[i - 1] == '\n' {
        i
    } else {
        line_start_of(s, i - 1)
    }
}

/// End (exclusive, before the newline) of the line holding index `i`.
pub open spec fn line_end_of(s: Seq<char>, i: int) -> int
    decreases s.len() - i,
{
    if i >= s.len() {
        s.len() as int
    } else if s[i] == '\n' {
        i
    } else {
        line_end_of(s, i + 1)
    }
}

/// Number of newline characters in `s`.
pub open spec fn count_newlines(s: Seq<char>) -> nat
    decreases s.len(),
{
    if s.len() == 0 {
        0
    } else {
        count_newlines(s.drop_last()) + if s.last() == '\n' { 1nat } else { 0nat }
    }
}

pub proof fn lemma_line_start_bounds(s: Seq<char>, i: int)
    requires
        0 <= i <= s.len(),
    ensures
        0 <= line_start_of(s, i) <= i,
    decreases i,
{
    if i > 0 && s[i - 1] != '\n' {
        lemma_line_start_bounds(s, i - 1);
    }
}

pub proof fn lemma_line_end_bounds(s: Seq<char>, i: int)
    requires
        0 <= i <= s.len(),
    ensures
        i <= line_end_of(s, i) <= s.len(),
    decreases s.len() - i,
{
    if i < s.len() && s[i] != '\n' {
        lemma_line_end_bounds(s, i + 1);
    }
}

/// The bounds of the line that holds index `index`.
pub fn line_bounds_for_index(content: &[char], index: usize) -> (b: (usize, usize))
    requires
        index <= content.len(),
    ensures
        b.0 == line_start_of(content@, index as int),
        b.1 == line_end_of(content@, index as int),
        b.0 <= index <= b.1 <= content.len(),
{
    proof {
        lemma_line_start_bounds(content@, index as int);
        lemma_line_end_bounds(content@, index as int);
    }
    let mut start = index;
    while start > 0 && content[start - 1] != '\n'
        invariant
            start <= index <= content.len(),
            line_start_of(content@, start as int) == line_start_of(content@, index as int),
        decreases start,
    {
        start = start - 1;
    }
    let mut end = index;
    while end < content.len() && content[end] != '\n'
        invariant
            index <= end <= content.len(),
            line_end_of(content@, end as int) == line_end_of(content@, index as int),
        decreases content.len() - end,
    {
        end = end + 1;
    }
    (start, end)
}

/// The 1-based number of the line that holds index `index`.
pub fn line_number_for_index(content: &[char], index: usize) -> (n: usize)
    requires
        index <= content.len(),
        index < usize::MAX,
    ensures
        n == count_newlines(content@.take(index as int)) + 1,
{
    let mut count: usize = 0;
    let mut i: usize = 0;
    while i < index
        invariant
            i <= index <= content.len(),
            index < usize::MAX,
            count == count_newlines(content@.take(i as int)),
            count <= i,
        decreases index - i,
    {
        assert(content@.take(i + 1).drop_last() =~= content@.take(i as int));
        if content[i] == '\n' {
            count = count + 1;
        }
        i = i + 1;
    }
    count + 1
}

/// `snippet`, cut to `max_chars` characters with "..." when it is longer.
pub open spec fn truncated_snippet(snippet: Seq<char>, max_chars: nat) -> Seq<char> {
    if snippet.len() <= max_chars {
        snippet
    } else {
        snippet.take(if max_chars >= 3 { max_chars - 3 } else { 0 }) + "..."@
    }
}

/// Cut a preview snippet to at most `max_chars` characters.
pub fn truncate_preview_snippet(snippet: &[char], max_chars: usize) -> (s: String)
    ensures
        s@ == truncated_snippet(snippet@, max_chars as nat),
{
    if snippet.len() <= max_chars {
        return string_from_chars(snippet);
    }
    let keep = max_chars.saturating_sub(3);
    let head = sub_chars(snippet, 0, keep);
    let mut s = string_from_chars(head.as_slice());
    push_str(&mut s, "...");
    s
}

/// The preview of the occurrence starting at `start`: its line number, its
/// 1-based column, and its line without trailing whitespace, cut short.
pub open spec fn preview_of(s: Seq<char>, start: int) -> (nat, nat, Seq<char>) {
    let ls = line_start_of(s, start);
    let le = line_end_of(s, start);
    (
        count_newlines(s.take(start)) + 1,
        (start - ls + 1) as nat,
        truncated_snippet(trim_end_seq(s.subrange(ls, le)), MAX_MATCH_PREVIEW_SNIPPET_CHARS as nat),
    )
}

/// Previews of the first occurrences.
pub open spec fn previews_of(s: Seq<char>, starts: Seq<int>) -> Seq<(nat, nat, Seq<char>)> {
    let n = if starts.len() <= MAX_NON_UNIQUE_MATCH_PREVIEWS {
        starts.len()
    } else {
        MAX_NON_UNIQUE_MATCH_PREVIEWS as nat
    };
    Seq::new(n, |k: int| preview_of(s, starts[k]))
}

/// How many occurrences the previews leave out.
pub open spec fn omitted_count(n: nat) -> nat {
    if n > MAX_NON_UNIQUE_MATCH_PREVIEWS {
        (n - MAX_NON_UNIQUE_MATCH_PREVIEWS) as nat
    } else {
        0
    }
}

/// Previews of the first occurrences, and how many are left out.
pub fn build_match_previews(content: &[char], match_locations: &[EditMatchLocation]) -> (r: (
    Vec<EditMatchPreview>,
    usize,
))
    requires
        forall|k: int|
            0 <= k < match_locations.len() ==> #[trigger] match_locations@[k].start
                < content.len(),
    ensures
        previews_view(r.0@) == previews_of(content@, starts_of(match_locations@)),
        r.1 == omitted_count(match_locations.len() as nat),
{
    let ghost starts = starts_of(match_locations@);
    let n = if match_locations.len() <= MAX_NON_UNIQUE_MATCH_PREVIEWS {
        match_locations.len()
    } else {
        MAX_NON_UNIQUE_MATCH_PREVIEWS
    };
    let mut previews: Vec<EditMatchPreview> = Vec::new();
    let mut k: usize = 0;
    while k < n
        invariant
            n <= match_locations.len(),
            n == previews_of(content@, starts).len(),
            k <= n,
            starts == starts_of(match_locations@),
            forall|t: int|
                0 <= t < match_locations.len() ==> #[trigger] match_locations@[t].start
                    < content.len(),
            previews_view(previews@) == previews_of(content@, starts).take(k as int),
        decreases n - k,
    {
        let start = match_locations[k].start;
        let (line_start, line_end) = line_bounds_for_index(content, start);
        let trimmed_end = trim_end_index(content, line_start, line_end);
        let line = sub_chars(content, line_start, trimmed_end);
        let snippet = truncate_preview_snippet(line.as_slice(), MAX_MATCH_PREVIEW_SNIPPET_CHARS);
        let preview = EditMatchPreview {
            line_number: line_number_for_index(content, start),
            column_number: start - line_start + 1,
            snippet,
        };
        let ghost before = previews@;
        previews.push(preview);
        proof {
            assert(starts[k as int] == start);
            assert(previews_view(previews@) =~= previews_view(before).push(preview@));
            assert(previews_of(content@, starts).take(k + 1) =~= previews_of(content@, starts).take(
                k as int,
            ).push(previews_of(content@, starts)[k as int]));
        }
        k = k + 1;
    }
    assert(previews_of(content@, starts).take(n as int) =~= previews_of(content@, starts));
    (previews, match_locations.len().saturating_sub(MAX_NON_UNIQUE_MATCH_PREVIEWS))
}


/// What a match selection asks for, given `n` occurrences.
pub enum SelectionOutcome {
    /// Replace the occurrences with these indices (in increasing order).
    Indices(Seq<int>),
    /// `ExactlyOne` was asked for and there is not exactly one occurrence.
    NonUnique,
    /// The selection cannot be honoured; the message says why.
    Invalid(Seq<char>),
}

pub open spec fn selection_outcome(selection: EditMatchSelection, n: nat) -> SelectionOutcome {
    match selection {
        EditMatchSelection::ExactlyOne => if n == 1 {
            SelectionOutcome::Indices(seq![0int])
        } else {
            SelectionOutcome::NonUnique
        },
        EditMatchSelection::First => SelectionOutcome::Indices(seq![0int]),
        EditMatchSelection::All => SelectionOutcome::Indices(Seq::new(n, |k: int| k)),
        EditMatchSelection::Nth { match_index } => match match_index {
            None => SelectionOutcome::Invalid(
                "match_index is required when match_selection is nth"@,
            ),
            Some(raw) => if raw == 0 {
                SelectionOutcome::Invalid("match_index must be 1 or greater"@)
            } else if raw - 1 > usize::MAX {
                SelectionOutcome::Invalid("match_index is too large"@)
            } else if raw - 1 >= n {
                SelectionOutcome::Invalid(
                    "match_index "@ + decimal(raw as nat) + " is out of range; found "@ + decimal(
                        n,
                    ) + " matches"@,
                )
            } else {
                SelectionOutcome::Indices(seq![raw - 1])
            },
        },
    }
}

/// The error reported for a selection that cannot be honoured.
pub open spec fn selection_error(
    outcome: SelectionOutcome,
    file_path: Seq<char>,
    edit_index: nat,
    content: Seq<char>,
    starts: Seq<int>,
) -> WorkspaceErrorModel {
    match outcome {
        SelectionOutcome::Invalid(message) => WorkspaceErrorModel::Edit(
            EditFailureModel::InvalidMatchSelection { file_path, edit_index, message },
        ),
        _ => WorkspaceErrorModel::Edit(
            EditFailureModel::NonUniqueMatch {
                file_path,
                edit_index,
                occurrences: starts.len(),
                match_previews: previews_of(content, starts),
                omitted_matches: omitted_count(starts.len()),
            },
        ),
    }
}

/// A vector of indices as integers.
pub open spec fn indices_view(v: Seq<usize>) -> Seq<int> {
    v.map_values(|x: usize| x as int)
}

fn invalid_match_selection_error(file_path: &str, edit_index: usize, message: String) -> (e:
    WorkspaceError)
    ensures
        e@ == WorkspaceErrorModel::Edit(
            EditFailureModel::InvalidMatchSelection {
                file_path: file_path@,
                edit_index: edit_index as nat,
                message: message@,
            },
        ),
{
    WorkspaceError::Edit(
        EditFailure::InvalidMatchSelection {
            file_path: file_path.to_owned(),
            edit_index,
            message,
        },
    )
}

fn non_unique_match_error(
    file_path: &str,
    edit_index: usize,
    match_locations: &[EditMatchLocation],
    content: &[char],
) -> (e: WorkspaceError)
    requires
        forall|k: int|
            0 <= k < match_locations.len() ==> #[trigger] match_locations@[k].start
                < content.len(),
    ensures
        e@ == selection_error(
            SelectionOutcome::NonUnique,
            file_path@,
            edit_index as nat,
            content@,
            starts_of(match_locations@),
        ),
{
    let (match_previews, omitted_matches) = build_match_previews(content, match_locations);
    WorkspaceError::Edit(
        EditFailure::NonUniqueMatch {
            file_path: file_path.to_owned(),
            edit_index,
            occurrences: match_locations.len(),
            match_previews,
            omitted_matches,
        },
    )
}

fn string_of(s: &str) -> (r: String)
    ensures
        r@ == s@,
{
    s.to_owned()
}

/// The indices of the occurrences that `match_selection` picks, or the error
/// that explains why it cannot be honoured.
pub fn select_match_indices(
    match_selection: EditMatchSelection,
    match_locations: &[EditMatchLocation],
    content: &[char],
    file_path: &str,
    edit_index: usize,
) -> (r: Result<Vec<usize>, WorkspaceError>)
    requires
        forall|k: int|
            0 <= k < match_locations.len() ==> #[trigger] match_locations@[k].start
                < content.len(),
    ensures
        match selection_outcome(match_selection, match_locations.len() as nat) {
            SelectionOutcome::Indices(ix) => r matches Ok(v) && indices_view(v@) == ix,
            o => r matches Err(e) && e@ == selection_error(
                o,
                file_path@,
                edit_index as nat,
                content@,
                starts_of(match_locations@),
            ),
        },
{
    match match_selection {
        EditMatchSelection::ExactlyOne => {
            if match_locations.len() == 1 {
                let v = vec![0usize];
                assert(indices_view(v@) =~= seq![0int]);
                Ok(v)
            } else {
                Err(non_unique_match_error(file_path, edit_index, match_locations, content))
            }
        },
        EditMatchSelection::First => {
            let v = vec![0usize];
            assert(indices_view(v@) =~= seq![0int]);
            Ok(v)
        },
        EditMatchSelection::All => {
            let mut v: Vec<usize> = Vec::new();
            let mut k: usize = 0;
            while k < match_locations.len()
                invariant
                    k <= match_locations.len(),
                    v@.len() == k,
                    indices_view(v@) =~= Seq::new(k as nat, |t: int| t),
                decreases match_locations.len() - k,
            {
                let ghost before = v@;
                v.push(k);
                proof {
                    assert forall|t: int| 0 <= t < k + 1 implies #[trigger] indices_view(v@)[t]
                        == t by {
                        if t < k {
                            assert(v@[t] == before[t]);
                            assert(indices_view(before)[t] == t);
                        }
                    }
                }
                k = k + 1;
                assert(indices_view(v@) =~= Seq::new(k as nat, |t: int| t));
            }
            Ok(v)
        },
        EditMatchSelection::Nth { match_index } => {
            let raw_index = match match_index {
                None => {
                    return Err(
                        invalid_match_selection_error(
                            file_path,
                            edit_index,
                            string_of("match_index is required when match_selection is nth"),
                        ),
                    );
                },
                Some(raw) => raw,
            };
            if raw_index == 0 {
                return Err(
                    invalid_match_selection_error(
                        file_path,
                        edit_index,
                        string_of("match_index must be 1 or greater"),
                    ),
                );
            }
            let zero_based = raw_index - 1;
            if zero_based > usize::MAX as u64 {
                return Err(
                    invalid_match_selection_error(
                        file_path,
                        edit_index,
                        string_of("match_index is too large"),
                    ),
                );
            }
            let zero_based_index = zero_based as usize;
            if zero_based_index >= match_locations.len() {
                let mut message = String::new();
                push_str(&mut message, "match_index ");
                push_str(&mut message, u64_to_decimal(raw_index).as_str());
                push_str(&mut message, " is out of range; found ");
                push_str(&mut message, u64_to_decimal(match_locations.len() as u64).as_str());
                push_str(&mut message, " matches");
                return Err(invalid_match_selection_error(file_path, edit_index, message));
            }
            let v = vec![zero_based_index];
            assert(indices_view(v@) =~= seq![raw_index - 1]);
            Ok(v)
        },
    }
}

/// The start positions of the selected occurrences.
pub open spec fn selected_positions(starts: Seq<int>, selected: Seq<int>) -> Seq<int> {
    selected.map_values(|k: int| starts[k])
}

/// Indices in strictly increasing order, each below `n`.
pub open spec fn increasing_below(selected: Seq<int>, n: int) -> bool {
    &&& forall|k: int| 0 <= k < selected.len() ==> 0 <= #[trigger] selected[k] < n
    &&& forall|k: int, j: int|
        0 <= k < j < selected.len() ==> #[trigger] selected[k] < #[trigger] selected[j]
}

fn append_range(out: &mut Vec<char>, v: &[char], lo: usize, hi: usize)
    requires
        lo <= hi <= v.len(),
    ensures
        final(out)@ == old(out)@ + v@.subrange(lo as int, hi as int),
{
    let mut i = lo;
    while i < hi
        invariant
            lo <= i <= hi <= v.len(),
            out@ == old(out)@ + v@.subrange(lo as int, i as int),
        decreases hi - i,
    {
        out.push(v[i]);
        i = i + 1;
        assert(out@ =~= old(out)@ + v@.subrange(lo as int, i as int));
    }
}

/// `content` with the occurrences at the increasing indices
/// `selected_indices` replaced by `replacement`.
fn replace_selected_in_order(
    content: &[char],
    match_locations: &[EditMatchLocation],
    selected_indices: &[usize],
    replacement: &[char],
    Ghost(plen): Ghost<int>,
) -> (r: Vec<char>)
    requires
        plen >= 0,
        all_span(match_locations@, plen),
        spaced(starts_of(match_locations@), plen, 0, content.len() as int),
        increasing_below(indices_view(selected_indices@), match_locations.len() as int),
    ensures
        r@ == splice(
            content@,
            selected_positions(starts_of(match_locations@), indices_view(selected_indices@)),
            plen,
            replacement@,
            0,
        ),
{
    let ghost starts = starts_of(match_locations@);
    let ghost sel = indices_view(selected_indices@);
    let ghost pos = selected_positions(starts, sel);
    let ghost whole = splice(content@, pos, plen, replacement@, 0);
    let mut out: Vec<char> = Vec::new();
    let mut cursor: usize = 0;
    let mut k: usize = 0;
    assert(pos.skip(0) =~= pos);
    while k < selected_indices.len()
        invariant
            plen >= 0,
            all_span(match_locations@, plen),
            spaced(starts, plen, 0, content.len() as int),
            increasing_below(sel, match_locations.len() as int),
            starts == starts_of(match_locations@),
            sel == indices_view(selected_indices@),
            pos == selected_positions(starts, sel),
            whole == splice(content@, pos, plen, replacement@, 0),
            k <= selected_indices.len(),
            cursor <= content.len(),
            k < selected_indices.len() ==> cursor <= pos[k as int],
            out@ + splice(content@, pos.skip(k as int), plen, replacement@, cursor as int) == whole,
        decreases selected_indices.len() - k,
    {
        let location = match_locations[selected_indices[k]];
        let ghost rest = splice(content@, pos.skip(k + 1), plen, replacement@, location.end as int);
        proof {
            assert(sel[k as int] == selected_indices@[k as int] as int);
            assert(pos[k as int] == location.start);
            assert(pos.skip(k as int).drop_first() =~= pos.skip(k + 1));
            assert(pos.skip(k as int)[0] == pos[k as int]);
            assert(starts[sel[k as int]] == location.start as int);
            assert(location.end == location.start + plen);
        }
        append_range(&mut out, content, cursor, location.start);
        let ghost mid = out@;
        let mut j: usize = 0;
        while j < replacement.len()
            invariant
                j <= replacement.len(),
                out@ == mid + replacement@.take(j as int),
            decreases replacement.len() - j,
        {
            out.push(replacement[j]);
            j = j + 1;
            assert(out@ =~= mid + replacement@.take(j as int));
        }
        assert(replacement@.take(replacement.len() as int) =~= replacement@);
        proof {
            if k + 1 < selected_indices.len() {
                assert(sel[k as int] < sel[k + 1]);
                assert(starts[sel[k as int]] + plen <= starts[sel[k + 1]]);
                assert(pos[k + 1] == starts[sel[k + 1]]);
            }
            assert(out@ + rest =~= mid + replacement@ + rest);
        }
        cursor = location.end;
        k = k + 1;
    }
    append_range(&mut out, content, cursor, content.len());
    proof {
        assert(pos.skip(k as int) =~= Seq::<int>::empty());
    }
    out
}

/// The indices below `k` that `sel` holds, in increasing order.
pub open spec fn chosen_below(sel: Seq<int>, k: int) -> Seq<int>
    decreases k,
{
    if k <= 0 {
        Seq::empty()
    } else {
        let r = chosen_below(sel, k - 1);
        if sel.contains(k - 1) {
            r.push(k - 1)
        } else {
            r
        }
    }
}

proof fn lemma_chosen_below_increasing(sel: Seq<int>, k: int)
    requires
        k >= 0,
    ensures
        increasing_below(chosen_below(sel, k), k),
        forall|j: int| 0 <= j < k ==> (chosen_below(sel, k).contains(j) <==> sel.contains(j)),
    decreases k,
{
    if k > 0 {
        lemma_chosen_below_increasing(sel, k - 1);
        let r = chosen_below(sel, k - 1);
        if sel.contains(k - 1) {
            assert forall|j: int| 0 <= j < k implies (chosen_below(sel, k).contains(j) <==> sel.contains(j)) by {
                if j < k - 1 {
                    if r.push(k - 1).contains(j) {
                        let t = choose|t: int| 0 <= t < r.push(k - 1).len() && #[trigger] r.push(k - 1)[t] == j;
                        if t < r.len() {
                            assert(r[t] == j);
                        }
                    }
                    if r.contains(j) {
                        let t = choose|t: int| 0 <= t < r.len() && #[trigger] r[t] == j;
                        assert(r.push(k - 1)[t] == j);
                    }
                } else {
                    assert(r.push(k - 1)[r.len() as int] == k - 1);
                }
            }
        } else {
            assert forall|j: int| 0 <= j < k implies (chosen_below(sel, k).contains(j) <==> sel.contains(j)) by {
                if j == k - 1 && r.contains(j) {
                    let t = choose|t: int| 0 <= t < r.len() && #[trigger] r[t] == j;
                    assert(r[t] < k - 1);
                }
            }
        }
    }
}

/// Two index lists that hold the same indices below `k` choose the same.
proof fn lemma_chosen_below_same(a: Seq<int>, b: Seq<int>, k: int)
    requires
        forall|j: int| 0 <= j < k ==> (a.contains(j) <==> b.contains(j)),
    ensures
        chosen_below(a, k) == chosen_below(b, k),
    decreases k,
{
    if k > 0 {
        lemma_chosen_below_same(a, b, k - 1);
    }
}

/// Increasing indices below `n` choose themselves.
proof fn lemma_chosen_increasing_is_itself(sel: Seq<int>, n: int)
    requires
        increasing_below(sel, n),
        n >= 0,
    ensures
        chosen_below(sel, n) == sel,
    decreases n,
{
    if n > 0 {
        if sel.len() > 0 && sel.last() == n - 1 {
            let d = sel.drop_last();
            assert forall|k: int| 0 <= k < d.len() implies 0 <= #[trigger] d[k] < n - 1 by {
                assert(sel[k] < sel[sel.len() - 1]);
            }
            assert(increasing_below(d, n - 1));
            lemma_chosen_increasing_is_itself(d, n - 1);
            assert forall|j: int| 0 <= j < n - 1 implies (sel.contains(j) <==> d.contains(j)) by {
                if sel.contains(j) {
                    let t = choose|t: int| 0 <= t < sel.len() && #[trigger] sel[t] == j;
                    assert(t != sel.len() - 1);
                    assert(d[t] == j);
                }
                if d.contains(j) {
                    let t = choose|t: int| 0 <= t < d.len() && #[trigger] d[t] == j;
                    assert(sel[t] == j);
                }
            }
            lemma_chosen_below_same(sel, d, n - 1);
            assert(sel.contains(n - 1)) by {
                assert(sel[sel.len() - 1] == n - 1);
            }
            assert(sel =~= d.push(n - 1));
        } else {
            assert forall|k: int| 0 <= k < sel.len() implies 0 <= #[trigger] sel[k] < n - 1 by {
                if sel[k] == n - 1 {
                    if k < sel.len() - 1 {
                        assert(sel[k] < sel[sel.len() - 1]);
                    }
                }
            }
            assert(increasing_below(sel, n - 1));
            lemma_chosen_increasing_is_itself(sel, n - 1);
            assert(!sel.contains(n - 1));
        }
    } else {
        if sel.len() > 0 {
            assert(0 <= sel[0] < n);
        }
        assert(sel =~= Seq::<int>::empty());
    }
}

/// The length of the occurrences at `locs`, all of one length: that of
/// the first one (0 when there is none).
pub open spec fn span_len(locs: Seq<EditMatchLocation>) -> int {
    if locs.len() > 0 {
        locs[0].end - locs[0].start
    } else {
        0
    }
}

/// Replacing at no positions keeps the rest of `s`, whatever the length.
proof fn lemma_splice_nothing(s: Seq<char>, plen: int, q: int, r: Seq<char>, cursor: int)
    ensures
        splice(s, Seq::empty(), plen, r, cursor) == splice(s, Seq::empty(), q, r, cursor),
{
}

/// `content` with the selected occurrences replaced by `replacement`: the
/// selection is taken in increasing order, and indices past the last
/// occurrence are skipped.
pub fn apply_selected_replacements(
    content: &[char],
    match_locations: &[EditMatchLocation],
    selected_indices: &[usize],
    replacement: &[char],
) -> (r: Vec<char>)
    requires
        span_len(match_locations@) >= 0,
        all_span(match_locations@, span_len(match_locations@)),
        spaced(starts_of(match_locations@), span_len(match_locations@), 0, content.len() as int),
    ensures
        r@ == splice(
            content@,
            selected_positions(
                starts_of(match_locations@),
                chosen_below(indices_view(selected_indices@), match_locations.len() as int),
            ),
            span_len(match_locations@),
            replacement@,
            0,
        ),
{
    let ghost plen = span_len(match_locations@);
    let ghost sel = indices_view(selected_indices@);
    let n = match_locations.len();
    let mut ordered: Vec<usize> = Vec::new();
    let mut k: usize = 0;
    while k < n
        invariant
            k <= n == match_locations.len(),
            sel == indices_view(selected_indices@),
            indices_view(ordered@) == chosen_below(sel, k as int),
        decreases n - k,
    {
        let mut found = false;
        let mut i: usize = 0;
        while i < selected_indices.len()
            invariant
                i <= selected_indices.len(),
                sel == indices_view(selected_indices@),
                found == exists|t: int| 0 <= t < i && #[trigger] sel[t] == k as int,
            decreases selected_indices.len() - i,
        {
            assert(sel[i as int] == selected_indices@[i as int] as int);
            if selected_indices[i] == k {
                found = true;
            }
            i = i + 1;
        }
        assert(found == sel.contains(k as int));
        let ghost before = ordered@;
        if found {
            ordered.push(k);
            assert(indices_view(ordered@) =~= indices_view(before).push(k as int));
        }
        k = k + 1;
    }
    proof {
        lemma_chosen_below_increasing(sel, n as int);
    }
    replace_selected_in_order(content, match_locations, ordered.as_slice(), replacement, Ghost(plen))
}

/// Why the file to edit could not be read.
#[derive(Debug, Clone)]
pub enum FileReadError {
    NotFound,
    /// Any other failure, with the I/O error's message.
    Other(String),
}

/// An edit as the engine sees it: old string, new string, and selection
/// (`ExactlyOne` when none was given).
pub open spec fn op_model(op: EditOperation) -> (Seq<char>, Seq<char>, EditMatchSelection) {
    (
        op.old_string@,
        op.new_string@,
        match op.match_selection {
            Some(m) => m,
            None => EditMatchSelection::ExactlyOne,
        },
    )
}

pub open spec fn ops_model(ops: Seq<EditOperation>) -> Seq<(Seq<char>, Seq<char>, EditMatchSelection)> {
    ops.map_values(|op: EditOperation| op_model(op))
}

/// The first edit at or after `k` whose old string is empty.
pub open spec fn first_empty_from(ops: Seq<(Seq<char>, Seq<char>, EditMatchSelection)>, k: int) -> Option<
    int,
>
    decreases ops.len() - k,
{
    if k < 0 || k >= ops.len() {
        None
    } else if ops[k].0.len() == 0 {
        Some(k)
    } else {
        first_empty_from(ops, k + 1)
    }
}

/// `a + b`, capped at `usize::MAX`.
pub open spec fn capped_sum(a: nat, b: nat) -> nat {
    if a + b <= usize::MAX {
        a + b
    } else {
        usize::MAX as nat
    }
}

/// The content after the edits `k..` applied in order to `s`, and the number
/// of replacements made in all (starting from `count`), or the first error.
pub open spec fn run_edits(
    s: Seq<char>,
    ops: Seq<(Seq<char>, Seq<char>, EditMatchSelection)>,
    file_path: Seq<char>,
    k: int,
    count: nat,
) -> Result<(Seq<char>, nat), WorkspaceErrorModel>
    decreases ops.len() - k,
{
    if k < 0 || k >= ops.len() {
        Ok((s, count))
    } else {
        let old_s = ops[k].0;
        let new_s = ops[k].1;
        let starts = match_starts(s, old_s);
        if starts.len() == 0 {
            Err(
                WorkspaceErrorModel::Edit(
                    EditFailureModel::StringNotFound { file_path, edit_index: (k + 1) as nat },
                ),
            )
        } else {
            match selection_outcome(ops[k].2, starts.len()) {
                SelectionOutcome::Indices(ix) => run_edits(
                    splice(s, selected_positions(starts, ix), old_s.len() as int, new_s, 0),
                    ops,
                    file_path,
                    k + 1,
                    capped_sum(count, ix.len()),
                ),
                o => Err(selection_error(o, file_path, (k + 1) as nat, s, starts)),
            }
        }
    }
}

/// The outcome of applying `ops` to the file at `file_path`, given what reading it gave.
pub open spec fn edit_outcome(
    file_path: Seq<char>,
    ops: Seq<(Seq<char>, Seq<char>, EditMatchSelection)>,
    read: Result<Seq<char>, Option<Seq<char>>>,
) -> Result<(Seq<char>, nat), WorkspaceErrorModel> {
    match first_empty_from(ops, 0) {
        Some(k) => Err(
            WorkspaceErrorModel::Edit(EditFailureModel::EmptyOldString { edit_index: (k + 1) as nat }),
        ),
        None => match read {
            Err(None) => Err(
                WorkspaceErrorModel::Edit(EditFailureModel::FileNotFound { file_path }),
            ),
            Err(Some(message)) => Err(
                WorkspaceErrorModel::Io("Failed to read file "@ + file_path + ": "@ + message),
            ),
            Ok(content) => run_edits(content, ops, file_path, 0, 0),
        },
    }
}

/// A file read result, with the content or error message by its characters.
pub open spec fn read_view(read: Result<String, FileReadError>) -> Result<Seq<char>, Option<Seq<char>>> {
    match read {
        Ok(c) => Ok(c@),
        Err(FileReadError::NotFound) => Err(None),
        Err(FileReadError::Other(m)) => Err(Some(m@)),
    }
}

/// An executable outcome agrees with a mathematical one.
pub open spec fn outcome_is(
    r: Result<(String, usize), WorkspaceError>,
    m: Result<(Seq<char>, nat), WorkspaceErrorModel>,
) -> bool {
    match (r, m) {
        (Ok((c, n)), Ok((mc, mn))) => c@ == mc && n as nat == mn,
        (Err(e), Err(me)) => e@ == me,
        _ => false,
    }
}

proof fn lemma_no_empty(ops: Seq<(Seq<char>, Seq<char>, EditMatchSelection)>, i: int)
    requires
        0 <= i,
        first_empty_from(ops, i) is None,
    ensures
        forall|t: int| i <= t < ops.len() ==> (#[trigger] ops[t]).0.len() > 0,
    decreases ops.len() - i,
{
    if i < ops.len() {
        lemma_no_empty(ops, i + 1);
    }
}

proof fn lemma_selection_increasing(selection: EditMatchSelection, n: nat)
    requires
        n > 0,
    ensures
        selection_outcome(selection, n) matches SelectionOutcome::Indices(ix) ==> increasing_below(
            ix,
            n as int,
        ),
{
}

/// Apply a sequence of edits to a file's content.
///
/// The edits are checked for an empty `old_string` first; then the read of
/// the file is consulted; then each edit is applied in order to the result
/// of the previous ones. Returns the new content and the number of
/// replacements made.
pub fn perform_edit_operations(
    file_path: &str,
    operations: &[EditOperation],
    file_content: Result<String, FileReadError>,
) -> (r: Result<(String, usize), WorkspaceError>)
    requires
        operations.len() < usize::MAX,
    ensures
        outcome_is(
            r,
            edit_outcome(file_path@, ops_model(operations@), read_view(file_content)),
        ),
{
    let ghost ops = ops_model(operations@);
    let mut index: usize = 0;
    while index < operations.len()
        invariant
            operations.len() < usize::MAX,
            ops == ops_model(operations@),
            index <= operations.len(),
            first_empty_from(ops, 0) == first_empty_from(ops, index as int),
        decreases operations.len() - index,
    {
        if operations[index].old_string.as_str().is_empty() {
            let e = WorkspaceError::Edit(EditFailure::EmptyOldString { edit_index: index + 1 });
            return Err(e);
        }
        index = index + 1;
    }
    let ghost outcome = edit_outcome(file_path@, ops, read_view(file_content));
    let content = match file_content {
        Ok(c) => c,
        Err(FileReadError::NotFound) => {
            return Err(
                WorkspaceError::Edit(EditFailure::FileNotFound { file_path: file_path.to_owned() }),
            );
        },
        Err(FileReadError::Other(message)) => {
            let mut text = String::new();
            push_str(&mut text, "Failed to read file ");
            push_str(&mut text, file_path);
            push_str(&mut text, ": ");
            push_str(&mut text, message.as_str());
            return Err(WorkspaceError::Io(text));
        },
    };
    proof {
        lemma_no_empty(ops, 0);
    }
    let mut current = chars_of(content.as_str());
    let mut applied: usize = 0;
    let mut k: usize = 0;
    while k < operations.len()
        invariant
            operations.len() < usize::MAX,
            ops == ops_model(operations@),
            k <= operations.len(),
            run_edits(content@, ops, file_path@, 0, 0) == run_edits(
                current@,
                ops,
                file_path@,
                k as int,
                applied as nat,
            ),
            forall|t: int| 0 <= t < ops.len() ==> (#[trigger] ops[t]).0.len() > 0,
            outcome == edit_outcome(file_path@, ops_model(operations@), read_view(file_content)),
            outcome == run_edits(content@, ops, file_path@, 0, 0),
        decreases operations.len() - k,
    {
        let op = &operations[k];
        let old_chars = chars_of(op.old_string.as_str());
        let new_chars = chars_of(op.new_string.as_str());
        assert(ops[k as int] == op_model(*op));
        assert(ops[k as int].0 == old_chars@);
        assert(ops[k as int].1 == new_chars@);
        let edit_index = k + 1;
        let locations = find_match_locations(current.as_slice(), old_chars.as_slice());
        proof {
            lemma_match_starts_spaced(current@, old_chars@, 0);
            assert forall|t: int| 0 <= t < locations.len() implies #[trigger] locations@[t].start
                < current.len() by {
                assert(starts_of(locations@)[t] == locations@[t].start);
            }
        }
        if locations.len() == 0 {
            return Err(
                WorkspaceError::Edit(
                    EditFailure::StringNotFound { file_path: file_path.to_owned(), edit_index },
                ),
            );
        }
        let selection = match op.match_selection {
            Some(m) => m,
            None => EditMatchSelection::ExactlyOne,
        };
        assert(ops[k as int].2 == selection);
        assert(starts_of(locations@).len() == locations.len());
        let selected = match select_match_indices(
            selection,
            locations.as_slice(),
            current.as_slice(),
            file_path,
            edit_index,
        ) {
            Ok(v) => v,
            Err(e) => {
                return Err(e);
            },
        };
        proof {
            lemma_selection_increasing(selection, locations.len() as nat);
            lemma_chosen_increasing_is_itself(indices_view(selected@), locations.len() as int);
        }
        proof {
            if locations@.len() > 0 {
                assert(span_len(locations@) == old_chars@.len());
            } else {
                assert(chosen_below(indices_view(selected@), 0) =~= Seq::<int>::empty());
                assert(selected_positions(starts_of(locations@), Seq::<int>::empty()) =~= Seq::<int>::empty());
                lemma_splice_nothing(current@, span_len(locations@), old_chars@.len() as int, new_chars@, 0);
            }
        }
        let next = apply_selected_replacements(
            current.as_slice(),
            locations.as_slice(),
            selected.as_slice(),
            new_chars.as_slice(),
        );
        applied = applied.saturating_add(selected.len());
        current = next;
        k = k + 1;
    }
    Ok((string_from_chars(current.as_slice()), applied))
}

/// What applying edits to the file at `file_path` reports: the number of
/// replacements and the new content when there were any (the file is then
/// written back), nothing changed otherwise.
pub fn edit_result(file_path: String, num_ops: usize, final_content: String) -> (r: crate::remote::EditResult)
    ensures
        r.file_path == file_path,
        !r.file_created,
        r.old_content is None,
        num_ops > 0 ==> r.changes_made == num_ops && r.new_content == Some(final_content),
        num_ops == 0 ==> r.changes_made == 0 && r.new_content is None,
{
    if num_ops > 0 {
        crate::remote::EditResult {
            file_path,
            changes_made: num_ops,
            file_created: false,
            old_content: None,
            new_content: Some(final_content),
        }
    } else {
        crate::remote::EditResult {
            file_path,
            changes_made: 0,
            file_created: false,
            old_content: None,
            new_content: None,
        }
    }
}

/// What writing `content` to the file at `file_path` reports: one change,
/// and whether the file was created.
pub fn write_result(file_path: String, content: String, file_existed: bool) -> (r: crate::remote::EditResult)
    ensures
        r.file_path == file_path,
        r.changes_made == 1,
        r.file_created == !file_existed,
        r.old_content is None,
        r.new_content == Some(content),
{
    crate::remote::EditResult {
        file_path,
        changes_made: 1,
        file_created: !file_existed,
        old_content: None,
        new_content: Some(content),
    }
}

} // verus!
