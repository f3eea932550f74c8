//! Text search over a workspace: choosing the regular expression that is
//! searched for, filtering files by glob, and assembling the matches found
//! in each file into one result, newest files first.

use vstd::prelude::*;
use crate::text::{
    chars_of, push_char, push_str, string_from_chars, sub_chars, trim_end_index, trim_end_seq,
};
use grep_searcher::sinks::UTF8;
use grep_searcher::{BinaryDetection, SearcherBuilder};

verus! {

/// One line that matched a search.
pub struct SearchMatch {
    pub file_path: String,
    pub line_number: usize,
    pub line_content: String,
    pub column_range: Option<(usize, usize)>,
}

/// What a search returns.
pub struct SearchResult {
    pub matches: Vec<SearchMatch>,
    pub total_files_searched: usize,
    pub search_completed: bool,
}

/// The plain values of a [`SearchMatch`].
pub struct MatchModel {
    pub file_path: Seq<char>,
    pub line_number: usize,
    pub line_content: Seq<char>,
    pub column_range: Option<(usize, usize)>,
}

pub open spec fn match_model(m: SearchMatch) -> MatchModel {
    MatchModel {
        file_path: m.file_path@,
        line_number: m.line_number,
        line_content: m.line_content@,
        column_range: m.column_range,
    }
}

pub open spec fn matches_model(v: Seq<SearchMatch>) -> Seq<MatchModel> {
    v.map_values(|m: SearchMatch| match_model(m))
}

/// Characters that have a meaning in a regular expression.
pub open spec fn is_regex_meta(c: char) -> bool {
    c == '\\' || c == '.' || c == '+' || c == '*' || c == '?' || c == '(' || c == ')' || c == '|'
        || c == '[' || c == ']' || c == '{' || c == '}' || c == '^' || c == '$' || c == '#' || c
        == '&' || c == '-' || c == '~'
}

/// `s` with a backslash before every regular-expression meta character.
pub open spec fn regex_escaped(s: Seq<char>) -> Seq<char>
    decreases s.len(),
{
    if s.len() == 0 {
        Seq::empty()
    } else {
        regex_escaped(s.drop_last()) + if is_regex_meta(s.last()) {
            seq!['\\', s.last()]
        } else {
            seq![s.last()]
        }
    }
}

/// `regex::escape`: each regular-expression meta character of `p` is
/// preceded by a backslash, everything else is copied (as regex-syntax's
/// `escape_into` does, with `is_meta_character`).
#[verifier::external_body]
fn regex_escape(p: &str) -> (r: String)
    ensures
        r@ == regex_escaped(p@),
{
    regex::escape(p)
}

/// The error, as displayed, of building a search matcher for `pattern`
/// with `\n` as line terminator; `None` when it builds.
pub uninterp spec fn matcher_build_error(pattern: Seq<char>) -> Option<Seq<char>>;

/// `grep_regex::RegexMatcherBuilder::build` with line terminator `\n`:
/// whether `pattern` compiles, and the error's text when it does not.
#[verifier::external_body]
fn regex_matcher_error(pattern: &str) -> (r: Option<String>)
    ensures
        match r {
            Some(e) => matcher_build_error(pattern@) == Some(e@),
            None => matcher_build_error(pattern@) is None,
        },
{
    match grep_regex::RegexMatcherBuilder::new().line_terminator(Some(b'\n')).build(pattern) {
        Ok(_) => None,
        Err(e) => Some(e.to_string()),
    }
}

/// The error, as displayed, of compiling `pattern` as a glob; `None` when
/// it compiles.
pub uninterp spec fn glob_compile_error(pattern: Seq<char>) -> Option<Seq<char>>;

/// `glob::Pattern::new`: whether `pattern` is a valid glob, and the error's
/// text when it is not.
#[verifier::external_body]
fn glob_pattern_error(pattern: &str) -> (r: Option<String>)
    ensures
        match r {
            Some(e) => glob_compile_error(pattern@) == Some(e@),
            None => glob_compile_error(pattern@) is None,
        },
{
    match glob::Pattern::new(pattern) {
        Ok(_) => None,
        Err(e) => Some(e.to_string()),
    }
}

/// Whether the glob `pattern` matches `text`.
pub uninterp spec fn glob_matches(pattern: Seq<char>, text: Seq<char>) -> bool;

/// `glob::Pattern::matches` for a pattern that compiles.
#[verifier::external_body]
fn glob_match(pattern: &str, text: &str) -> (r: bool)
    requires
        glob_compile_error(pattern@) is None,
    ensures
        r == glob_matches(pattern@, text@),
{
    match glob::Pattern::new(pattern) {
        Ok(p) => p.matches(text),
        Err(_) => false,
    }
}

pub open spec fn opt_view(o: Option<String>) -> Option<Seq<char>> {
    match o {
        Some(s) => Some(s@),
        None => None,
    }
}

/// The pattern searched for: `pattern` itself when it compiles, else its
/// escaped form, taken literally; given the build errors of both.
pub open spec fn matcher_choice(
    pattern: Seq<char>,
    error: Option<Seq<char>>,
    escaped_error: Option<Seq<char>>,
) -> Result<Seq<char>, Seq<char>> {
    match error {
        None => Ok(pattern),
        Some(_) => match escaped_error {
            None => Ok(regex_escaped(pattern)),
            Some(e) => Err("Failed to create matcher: "@ + e),
        },
    }
}

pub open spec fn result_view(r: Result<String, String>) -> Result<Seq<char>, Seq<char>> {
    match r {
        Ok(s) => Ok(s@),
        Err(e) => Err(e@),
    }
}

/// Decides the pattern searched for from the build errors of `pattern`
/// and of its escaped form.
pub fn select_matcher_pattern(
    pattern: &str,
    error: Option<String>,
    escaped_error: Option<String>,
) -> (r: Result<String, String>)
    ensures
        result_view(r) == matcher_choice(pattern@, opt_view(error), opt_view(escaped_error)),
{
    match error {
        None => {
            let mut s = String::new();
            push_str(&mut s, pattern);
            Ok(s)
        },
        Some(_) => match escaped_error {
            None => Ok(regex_escape(pattern)),
            Some(e) => {
                let mut m = String::new();
                push_str(&mut m, "Failed to create matcher: ");
                push_str(&mut m, e.as_str());
                Err(m)
            },
        },
    }
}

/// The pattern a grep searches for, or why there is none.
pub fn grep_matcher_pattern(pattern: &str) -> (r: Result<String, String>)
    ensures
        result_view(r) == matcher_choice(
            pattern@,
            matcher_build_error(pattern@),
            matcher_build_error(regex_escaped(pattern@)),
        ),
{
    let error = regex_matcher_error(pattern);
    if error.is_none() {
        return select_matcher_pattern(pattern, None, None);
    }
    let escaped = regex_escape(pattern);
    let escaped_error = regex_matcher_error(escaped.as_str());
    select_matcher_pattern(pattern, error, escaped_error)
}

/// Checks a glob that files must match: `Ok` when there is none or it compiles.
pub fn check_include_glob(filter_glob: Option<&str>, what: &str) -> (r: Result<(), String>)
    ensures
        match filter_glob {
            None => r is Ok,
            Some(p) => match glob_compile_error(p@) {
                None => r is Ok,
                Some(e) => r matches Err(m) && m@ == "Invalid "@ + what@ + "glob pattern: "@ + e,
            },
        },
{
    match filter_glob {
        None => Ok(()),
        Some(p) => match glob_pattern_error(p) {
            None => Ok(()),
            Some(e) => {
                let mut m = String::new();
                push_str(&mut m, "Invalid ");
                push_str(&mut m, what);
                push_str(&mut m, "glob pattern: ");
                push_str(&mut m, e.as_str());
                Err(m)
            },
        },
    }
}

/// A file is searched when the glob matches its full path, its path
/// relative to the search root (when it lies under the root), or its name.
pub open spec fn path_glob_hit(
    pattern: Seq<char>,
    full: Option<Seq<char>>,
    relative: Option<Seq<char>>,
    file_name: Option<Seq<char>>,
) -> bool {
    ||| (full matches Some(f) && glob_matches(pattern, f))
    ||| (relative matches Some(r) && glob_matches(pattern, r))
    ||| (file_name matches Some(n) && glob_matches(pattern, n))
}

/// Whether a file passes the glob `pattern`, given its full path, its path
/// relative to the search root and its file name, each as text where
/// there is one.
pub fn path_matches_glob(
    pattern: &str,
    full: Option<&str>,
    relative: Option<&str>,
    file_name: Option<&str>,
) -> (r: bool)
    requires
        glob_compile_error(pattern@) is None,
    ensures
        r == path_glob_hit(
            pattern@,
            match full {
                Some(f) => Some(f@),
                None => None,
            },
            match relative {
                Some(x) => Some(x@),
                None => None,
            },
            match file_name {
                Some(n) => Some(n@),
                None => None,
            },
        ),
{
    if let Some(f) = full {
        if glob_match(pattern, f) {
            return true;
        }
    }
    if let Some(x) = relative {
        if glob_match(pattern, x) {
            return true;
        }
    }
    if let Some(n) = file_name {
        if glob_match(pattern, n) {
            return true;
        }
    }
    false
}

/// Whether a file passes the glob `pattern` (see [`path_matches_glob`]);
/// `None` when `pattern` is not a valid glob.
pub fn file_passes_glob(
    pattern: &str,
    full: Option<&str>,
    relative: Option<&str>,
    file_name: Option<&str>,
) -> (r: Option<bool>)
    ensures
        match glob_compile_error(pattern@) {
            Some(_) => r is None,
            None => r == Some(
                path_glob_hit(
                    pattern@,
                    match full {
                        Some(f) => Some(f@),
                        None => None,
                    },
                    match relative {
                        Some(x) => Some(x@),
                        None => None,
                    },
                    match file_name {
                        Some(n) => Some(n@),
                        None => None,
                    },
                ),
            ),
        },
{
    if glob_pattern_error(pattern).is_some() {
        return None;
    }
    Some(path_matches_glob(pattern, full, relative, file_name))
}

/// The matches found in one file, with the file's modification time (as an
/// integer that orders times) and the path it is shown under.
pub struct FileHits {
    pub display_path: String,
    pub mtime: u128,
    pub matches: Vec<(usize, String)>,
}

/// The plain values of a [`FileHits`].
pub struct HitsModel {
    pub path: Seq<char>,
    pub mtime: int,
    pub lines: Seq<(usize, Seq<char>)>,
}

pub open spec fn lines_model(v: Seq<(usize, String)>) -> Seq<(usize, Seq<char>)> {
    v.map_values(|x: (usize, String)| (x.0, x.1@))
}

pub open spec fn hits_model(h: FileHits) -> HitsModel {
    HitsModel { path: h.display_path@, mtime: h.mtime as int, lines: lines_model(h.matches@) }
}

pub open spec fn hits_models(v: Seq<FileHits>) -> Seq<HitsModel> {
    v.map_values(|h: FileHits| hits_model(h))
}

/// Index of the bucket for `path` in `bs`, or `bs.len()`.
pub open spec fn bucket_index_from(bs: Seq<HitsModel>, path: Seq<char>, i: int) -> int
    decreases bs.len() - i,
{
    if i >= bs.len() {
        bs.len() as int
    } else if bs[i].path == path {
        i
    } else {
        bucket_index_from(bs, path, i + 1)
    }
}

pub proof fn lemma_bucket_index_from(bs: Seq<HitsModel>, path: Seq<char>, i: int)
    requires
        0 <= i <= bs.len(),
    ensures
        i <= bucket_index_from(bs, path, i) <= bs.len(),
        bucket_index_from(bs, path, i) < bs.len() ==> bs[bucket_index_from(bs, path, i)].path
            == path,
        forall|k: int| i <= k < bucket_index_from(bs, path, i) ==> bs[k].path != path,
    decreases bs.len() - i,
{
    if i < bs.len() && bs[i].path != path {
        lemma_bucket_index_from(bs, path, i + 1);
    }
}

/// The matches of the files gathered per shown path, in the order in
/// which paths were first met: a path met again adds its matches after the
/// earlier ones and keeps the latest modification time.  Files without
/// matches are left out.
pub open spec fn merge_hits(files: Seq<HitsModel>) -> Seq<HitsModel>
    decreases files.len(),
{
    if files.len() == 0 {
        Seq::empty()
    } else {
        let bs = merge_hits(files.drop_last());
        let f = files.last();
        if f.lines.len() == 0 {
            bs
        } else {
            let k = bucket_index_from(bs, f.path, 0);
            if k < bs.len() {
                bs.update(
                    k,
                    HitsModel {
                        path: bs[k].path,
                        mtime: if f.mtime > bs[k].mtime {
                            f.mtime
                        } else {
                            bs[k].mtime
                        },
                        lines: bs[k].lines + f.lines,
                    },
                )
            } else {
                bs.push(f)
            }
        }
    }
}

/// `a` comes before `b` in code point order.
pub open spec fn text_less(a: Seq<char>, b: Seq<char>) -> bool
    decreases a.len(),
{
    if b.len() == 0 {
        false
    } else if a.len() == 0 {
        true
    } else if a[0] != b[0] {
        (a[0] as u32) < (b[0] as u32)
    } else {
        text_less(a.drop_first(), b.drop_first())
    }
}

/// Files come newest first, and by path among files of the same time.
pub open spec fn hits_before(a: HitsModel, b: HitsModel) -> bool {
    a.mtime > b.mtime || (a.mtime == b.mtime && text_less(a.path, b.path))
}

/// Index at which `x` is inserted into `s`: before the first element it
/// comes before.
pub open spec fn insert_index_from(s: Seq<HitsModel>, x: HitsModel, i: int) -> int
    decreases s.len() - i,
{
    if i >= s.len() {
        s.len() as int
    } else if hits_before(x, s[i]) {
        i
    } else {
        insert_index_from(s, x, i + 1)
    }
}

pub proof fn lemma_insert_index_from(s: Seq<HitsModel>, x: HitsModel, i: int)
    requires
        0 <= i <= s.len(),
    ensures
        i <= insert_index_from(s, x, i) <= s.len(),
        forall|k: int| i <= k < insert_index_from(s, x, i) ==> !hits_before(x, s[k]),
        insert_index_from(s, x, i) < s.len() ==> hits_before(x, s[insert_index_from(s, x, i)]),
    decreases s.len() - i,
{
    if i < s.len() && !hits_before(x, s[i]) {
        lemma_insert_index_from(s, x, i + 1);
    }
}

/// The buckets `bs` in order: newest first, then by path.
pub open spec fn sort_hits(bs: Seq<HitsModel>) -> Seq<HitsModel>
    decreases bs.len(),
{
    if bs.len() == 0 {
        Seq::empty()
    } else {
        let s = sort_hits(bs.drop_last());
        s.insert(insert_index_from(s, bs.last(), 0), bs.last())
    }
}

/// The matches of the buckets, one after the other, each with its path.
pub open spec fn flatten_hits(bs: Seq<HitsModel>) -> Seq<MatchModel>
    decreases bs.len(),
{
    if bs.len() == 0 {
        Seq::empty()
    } else {
        flatten_hits(bs.drop_last()) + bs.last().lines.map_values(
            |l: (usize, Seq<char>)|
                MatchModel {
                    file_path: bs.last().path,
                    line_number: l.0,
                    line_content: l.1,
                    column_range: None,
                },
        )
    }
}

/// Whether `a` comes before `b` in code point order.
pub fn str_less(a: &str, b: &str) -> (r: bool)
    ensures
        r == text_less(a@, b@),
{
    let x = chars_of(a);
    let y = chars_of(b);
    let mut i: usize = 0;
    assert(x@.skip(0) =~= x@);
    assert(y@.skip(0) =~= y@);
    while i < x.len() && i < y.len() && x[i] == y[i]
        invariant
            i <= x.len(),
            i <= y.len(),
            x@ == a@,
            y@ == b@,
            text_less(a@, b@) == text_less(x@.skip(i as int), y@.skip(i as int)),
        decreases x.len() - i,
    {
        assert(x@.skip(i as int).drop_first() =~= x@.skip(i + 1));
        assert(y@.skip(i as int).drop_first() =~= y@.skip(i + 1));
        i = i + 1;
    }
    if i == y.len() {
        false
    } else if i == x.len() {
        true
    } else {
        (x[i] as u32) < (y[i] as u32)
    }
}

fn hits_before_exec(a: &FileHits, b: &FileHits) -> (r: bool)
    ensures
        r == hits_before(hits_model(*a), hits_model(*b)),
{
    if a.mtime > b.mtime {
        true
    } else if a.mtime == b.mtime {
        str_less(a.display_path.as_str(), b.display_path.as_str())
    } else {
        false
    }
}

/// Index of the bucket in `bs` shown under `path`, or `bs.len()`.
fn find_bucket(bs: &Vec<FileHits>, path: &String) -> (k: usize)
    ensures
        k == bucket_index_from(hits_models(bs@), path@, 0),
{
    let ghost m = hits_models(bs@);
    let mut k: usize = 0;
    while k < bs.len()
        invariant
            k <= bs.len(),
            m == hits_models(bs@),
            m.len() == bs.len(),
            bucket_index_from(m, path@, 0) == bucket_index_from(m, path@, k as int),
        decreases bs.len() - k,
    {
        assert(m[k as int].path == bs@[k as int].display_path@);
        if bs[k].display_path == *path {
            return k;
        }
        k = k + 1;
    }
    k
}

/// Gathers the files' matches per shown path (see [`merge_hits`]).
pub fn merge_file_hits(files: Vec<FileHits>) -> (bs: Vec<FileHits>)
    ensures
        hits_models(bs@) == merge_hits(hits_models(files@)),
{
    let ghost orig = files@;
    let mut rest = files;
    let mut buckets: Vec<FileHits> = Vec::new();
    let ghost mut i: int = 0;
    assert(orig.take(0) =~= Seq::<FileHits>::empty());
    assert(hits_models(orig.take(0)) =~= Seq::<HitsModel>::empty());
    assert(orig.skip(0) =~= orig);
    while rest.len() > 0
        invariant
            0 <= i <= orig.len(),
            rest@ == orig.skip(i),
            hits_models(buckets@) == merge_hits(hits_models(orig.take(i))),
        decreases rest.len(),
    {
        let mut f = rest.remove(0);
        assert(orig.take(i + 1).drop_last() =~= orig.take(i));
        assert(hits_models(orig.take(i + 1)).drop_last() =~= hits_models(orig.take(i)));
        assert(hits_models(orig.take(i + 1)).last() == hits_model(f));
        assert(rest@ =~= orig.skip(i + 1));
        let ghost bs = hits_models(buckets@);
        let ghost fm = hits_model(f);
        if f.matches.len() > 0 {
            let k = find_bucket(&buckets, &f.display_path);
            proof {
                lemma_bucket_index_from(bs, fm.path, 0);
            }
            if k < buckets.len() {
                let mut b = buckets.remove(k);
                assert(bs[k as int] == hits_model(b));
                if f.mtime > b.mtime {
                    b.mtime = f.mtime;
                }
                let ghost bl = b.matches@;
                b.matches.append(&mut f.matches);
                assert(lines_model(b.matches@) =~= lines_model(bl) + fm.lines);
                buckets.insert(k, b);
                assert(hits_models(buckets@) =~= bs.update(
                    k as int,
                    HitsModel {
                        path: bs[k as int].path,
                        mtime: if fm.mtime > bs[k as int].mtime {
                            fm.mtime
                        } else {
                            bs[k as int].mtime
                        },
                        lines: bs[k as int].lines + fm.lines,
                    },
                ));
            } else {
                buckets.push(f);
                assert(hits_models(buckets@) =~= bs.push(fm));
            }
        }
        proof {
            i = i + 1;
        }
    }
    assert(orig.take(i) =~= orig);
    buckets
}

/// The buckets in order: newest first, then by path (see [`sort_hits`]).
pub fn sort_file_hits(bs: Vec<FileHits>) -> (r: Vec<FileHits>)
    ensures
        hits_models(r@) == sort_hits(hits_models(bs@)),
{
    let ghost orig = bs@;
    let mut rest = bs;
    let mut sorted: Vec<FileHits> = Vec::new();
    let ghost mut i: int = 0;
    assert(orig.take(0) =~= Seq::<FileHits>::empty());
    assert(hits_models(orig.take(0)) =~= Seq::<HitsModel>::empty());
    assert(orig.skip(0) =~= orig);
    while rest.len() > 0
        invariant
            0 <= i <= orig.len(),
            rest@ == orig.skip(i),
            hits_models(sorted@) == sort_hits(hits_models(orig.take(i))),
        decreases rest.len(),
    {
        let x = rest.remove(0);
        assert(orig.take(i + 1).drop_last() =~= orig.take(i));
        assert(hits_models(orig.take(i + 1)).drop_last() =~= hits_models(orig.take(i)));
        assert(hits_models(orig.take(i + 1)).last() == hits_model(x));
        assert(rest@ =~= orig.skip(i + 1));
        let ghost sm = hits_models(sorted@);
        let mut pos: usize = 0;
        while pos < sorted.len() && !hits_before_exec(&x, &sorted[pos])
            invariant
                pos <= sorted.len(),
                sm == hits_models(sorted@),
                sm.len() == sorted.len(),
                insert_index_from(sm, hits_model(x), 0) == insert_index_from(
                    sm,
                    hits_model(x),
                    pos as int,
                ),
            decreases sorted.len() - pos,
        {
            assert(sm[pos as int] == hits_model(sorted@[pos as int]));
            pos = pos + 1;
        }
        proof {
            if pos < sorted.len() {
                assert(sm[pos as int] == hits_model(sorted@[pos as int]));
            }
        }
        let ghost xm = hits_model(x);
        sorted.insert(pos, x);
        assert(hits_models(sorted@) =~= sm.insert(pos as int, xm));
        proof {
            i = i + 1;
        }
    }
    assert(orig.take(i) =~= orig);
    sorted
}

/// The matches of the buckets, one after the other (see [`flatten_hits`]).
pub fn flatten_file_hits(bs: Vec<FileHits>) -> (r: Vec<SearchMatch>)
    ensures
        matches_model(r@) == flatten_hits(hits_models(bs@)),
{
    let ghost orig = bs@;
    let mut rest = bs;
    let mut out: Vec<SearchMatch> = Vec::new();
    let ghost mut i: int = 0;
    assert(orig.take(0) =~= Seq::<FileHits>::empty());
    assert(hits_models(orig.take(0)) =~= Seq::<HitsModel>::empty());
    assert(orig.skip(0) =~= orig);
    while rest.len() > 0
        invariant
            0 <= i <= orig.len(),
            rest@ == orig.skip(i),
            matches_model(out@) == flatten_hits(hits_models(orig.take(i))),
        decreases rest.len(),
    {
        let mut b = rest.remove(0);
        assert(orig.take(i + 1).drop_last() =~= orig.take(i));
        assert(hits_models(orig.take(i + 1)).drop_last() =~= hits_models(orig.take(i)));
        assert(hits_models(orig.take(i + 1)).last() == hits_model(b));
        assert(rest@ =~= orig.skip(i + 1));
        let ghost bm = hits_model(b);
        let ghost start = matches_model(out@);
        let ghost f = |l: (usize, Seq<char>)|
            MatchModel {
                file_path: bm.path,
                line_number: l.0,
                line_content: l.1,
                column_range: None,
            };
        let ghost lines = b.matches@;
        let ghost mut j: int = 0;
        while b.matches.len() > 0
            invariant
                0 <= j <= lines.len(),
                b.matches@ == lines.skip(j),
                b.display_path@ == bm.path,
                bm.lines == lines_model(lines),
                f == (|l: (usize, Seq<char>)|
                    MatchModel {
                        file_path: bm.path,
                        line_number: l.0,
                        line_content: l.1,
                        column_range: None,
                    }),
                matches_model(out@) == start + lines_model(lines.take(j)).map_values(f),
            decreases b.matches.len(),
        {
            let (line_number, line_content) = b.matches.remove(0);
            let ghost before = out@;
            out.push(
                SearchMatch {
                    file_path: b.display_path.clone(),
                    line_number,
                    line_content,
                    column_range: None,
                },
            );
            assert(lines.take(j + 1) =~= lines.take(j).push(lines[j]));
            assert(lines_model(lines.take(j + 1)).map_values(f) =~= lines_model(
                lines.take(j),
            ).map_values(f).push(f((lines[j].0, lines[j].1@))));
            assert(matches_model(out@) =~= matches_model(before).push(
                match_model(out@.last()),
            ));
            assert(b.matches@ =~= lines.skip(j + 1));
            proof {
                j = j + 1;
            }
        }
        assert(lines.take(j) =~= lines);
        assert(matches_model(out@) =~= flatten_hits(hits_models(orig.take(i + 1))));
        proof {
            i = i + 1;
        }
    }
    assert(orig.take(i) =~= orig);
    out
}

/// How searching one file ended.
#[derive(Debug, Clone, Copy, PartialEq, Eq, Structural)]
pub enum FileSearchOutcome {
    /// The file was searched to its end.
    Finished,
    /// The search was cancelled while in this file.
    Cancelled,
    /// The file is not valid text.
    InvalidData,
    /// Reading the file failed otherwise.
    Failed,
}

/// Whether the matches found before the search of a file ended are kept:
/// all but those of a file that is not valid text.
pub fn keeps_file_matches(outcome: FileSearchOutcome) -> (b: bool)
    ensures
        b == (outcome != FileSearchOutcome::InvalidData),
{
    match outcome {
        FileSearchOutcome::InvalidData => false,
        _ => true,
    }
}

/// The lines of `content` that a search matcher for `pattern` (with `\n` as
/// line terminator) matches, each with its number and as the searcher hands
/// it over (line terminator included), and whether the search ran to its
/// end. The searcher stops at a NUL byte and counts lines.
pub uninterp spec fn searched_lines(pattern: Seq<char>, content: Seq<u8>) -> (
    Seq<(u64, Seq<char>)>,
    bool,
);

/// Numbered lines by their characters.
pub open spec fn numbered_view(v: Seq<(u64, String)>) -> Seq<(u64, Seq<char>)> {
    v.map_values(|x: (u64, String)| (x.0, x.1@))
}

/// `grep_searcher::Searcher::search_slice` with a matcher for `pattern`,
/// binary detection that quits at a NUL byte, line numbers on, and the
/// `UTF8` sink collecting every match: the lines found, and `false` when
/// the search ended in an error (a matched line that is not valid UTF-8).
#[verifier::external_body]
fn search_slice(pattern: &str, content: &[u8]) -> (r: (Vec<(u64, String)>, bool))
    requires
        matcher_build_error(pattern@) is None,
    ensures
        searched_lines(pattern@, content@) == (numbered_view(r.0@), r.1),
{
    let matcher = match grep_regex::RegexMatcherBuilder::new().line_terminator(Some(b'\n')).build(pattern) {
        Ok(m) => m,
        Err(_) => return (Vec::new(), false),
    };
    let mut searcher = SearcherBuilder::new().binary_detection(BinaryDetection::quit(b'\x00')).line_number(true).build();
    let mut lines = Vec::new();
    let sink = UTF8(|n, line| {
        lines.push((n, line.to_string()));
        Ok(true)
    });
    let finished = searcher.search_slice(&matcher, content, sink).is_ok();
    (lines, finished)
}

/// The matches of one file: each line's number and its text without
/// trailing whitespace.
pub open spec fn trimmed_hits(ls: Seq<(u64, Seq<char>)>) -> Seq<(usize, Seq<char>)> {
    ls.map_values(|x: (u64, Seq<char>)| (x.0 as usize, trim_end_seq(x.1)))
}

/// Searches the content of one file for `pattern`, which compiles: the
/// matching lines in the order found, numbered and without trailing
/// whitespace, and `Finished` when the search ran to the end, `Failed` when
/// it stopped on an error (the lines found before it are kept).
pub fn search_content(pattern: &str, content: &[u8]) -> (r: (FileSearchOutcome, Vec<(usize, String)>))
    requires
        matcher_build_error(pattern@) is None,
    ensures
        r.0 == (if searched_lines(pattern@, content@).1 {
            FileSearchOutcome::Finished
        } else {
            FileSearchOutcome::Failed
        }),
        lines_model(r.1@) == trimmed_hits(searched_lines(pattern@, content@).0),
{
    let (found, finished) = search_slice(pattern, content);
    let ghost ls = numbered_view(found@);
    let mut lines: Vec<(usize, String)> = Vec::new();
    let mut i: usize = 0;
    while i < found.len()
        invariant
            i <= found.len(),
            ls == numbered_view(found@),
            lines@.len() == i,
            forall|j: int|
                0 <= j < i ==> (#[trigger] lines@[j]).0 == ls[j].0 as usize && lines@[j].1@
                    == trim_end_seq(ls[j].1),
        decreases found.len() - i,
    {
        let c = chars_of(found[i].1.as_str());
        let e = trim_end_index(&c, 0, c.len());
        assert(c@.subrange(0, c@.len() as int) =~= c@);
        let kept = sub_chars(&c, 0, e);
        let text = string_from_chars(&kept);
        lines.push((found[i].0 as usize, text));
        i = i + 1;
    }
    assert(lines_model(lines@) =~= trimmed_hits(ls));
    let outcome = if finished {
        FileSearchOutcome::Finished
    } else {
        FileSearchOutcome::Failed
    };
    (outcome, lines)
}

/// Searches the content of one file for `pattern`: the error message when
/// no matcher can be built for it, else what [`search_content`] gives.
pub fn search_file_content(pattern: &str, content: &[u8]) -> (r: Result<
    (FileSearchOutcome, Vec<(usize, String)>),
    String,
>)
    ensures
        match matcher_build_error(pattern@) {
            Some(e) => r matches Err(m) && m@ == "Failed to create matcher: "@ + e,
            None => r matches Ok(x) && x.0 == (if searched_lines(pattern@, content@).1 {
                FileSearchOutcome::Finished
            } else {
                FileSearchOutcome::Failed
            }) && lines_model(x.1@) == trimmed_hits(searched_lines(pattern@, content@).0),
        },
{
    match regex_matcher_error(pattern) {
        Some(e) => {
            let mut m = String::new();
            push_str(&mut m, "Failed to create matcher: ");
            push_str(&mut m, e.as_str());
            Err(m)
        },
        None => Ok(search_content(pattern, content)),
    }
}

/// Assembles a grep result from the matches of the files searched, in the
/// order in which they were searched: matches gathered per path, files
/// newest first (then by path), each file's matches in the order found.
pub fn assemble_grep_result(
    files: Vec<FileHits>,
    files_searched: usize,
    cancelled: bool,
) -> (r: SearchResult)
    ensures
        matches_model(r.matches@) == flatten_hits(sort_hits(merge_hits(hits_models(files@)))),
        r.total_files_searched == files_searched,
        r.search_completed == !cancelled,
{
    let merged = merge_file_hits(files);
    let sorted = sort_file_hits(merged);
    let matches = flatten_file_hits(sorted);
    SearchResult { matches, total_files_searched: files_searched, search_completed: !cancelled }
}

proof fn lemma_text_less_irreflexive(a: Seq<char>)
    ensures
        !text_less(a, a),
    decreases a.len(),
{
    if a.len() > 0 {
        assert(a.drop_first() == a.drop_first());
        lemma_text_less_irreflexive(a.drop_first());
    }
}

proof fn lemma_text_less_asymmetric(a: Seq<char>, b: Seq<char>)
    ensures
        !(text_less(a, b) && text_less(b, a)),
    decreases a.len(),
{
    if a.len() > 0 && b.len() > 0 && a[0] == b[0] {
        lemma_text_less_asymmetric(a.drop_first(), b.drop_first());
    }
}

proof fn lemma_text_less_transitive(a: Seq<char>, b: Seq<char>, c: Seq<char>)
    requires
        text_less(a, b),
        text_less(b, c),
    ensures
        text_less(a, c),
    decreases a.len(),
{
    if a.len() > 0 && b.len() > 0 && c.len() > 0 && a[0] == b[0] && b[0] == c[0] {
        lemma_text_less_transitive(a.drop_first(), b.drop_first(), c.drop_first());
    }
}

proof fn lemma_hits_before_order(a: HitsModel, b: HitsModel, c: HitsModel)
    ensures
        !hits_before(a, a),
        !(hits_before(a, b) && hits_before(b, a)),
        hits_before(a, b) && hits_before(b, c) ==> hits_before(a, c),
{
    lemma_text_less_irreflexive(a.path);
    lemma_text_less_asymmetric(a.path, b.path);
    if hits_before(a, b) && hits_before(b, c) && a.mtime == b.mtime && b.mtime == c.mtime {
        lemma_text_less_transitive(a.path, b.path, c.path);
    }
}

/// No file in `s` comes before one that precedes it.
pub open spec fn hits_sorted(s: Seq<HitsModel>) -> bool {
    forall|i: int, j: int| 0 <= i < j < s.len() ==> !hits_before(#[trigger] s[j], #[trigger] s[i])
}

/// Search results list files newest first, and files of the same time by
/// path: whatever the buckets, their sorted order has no file before one
/// that should precede it.
pub proof fn law_grep_files_newest_first(bs: Seq<HitsModel>)
    ensures
        hits_sorted(sort_hits(bs)),
        sort_hits(bs).len() == bs.len(),
    decreases bs.len(),
{
    if bs.len() > 0 {
        law_grep_files_newest_first(bs.drop_last());
        let s = sort_hits(bs.drop_last());
        let x = bs.last();
        lemma_insert_index_from(s, x, 0);
        let p = insert_index_from(s, x, 0);
        let t = s.insert(p, x);
        assert forall|i: int, j: int| 0 <= i < j < t.len() implies !hits_before(
            #[trigger] t[j],
            #[trigger] t[i],
        ) by {
            lemma_hits_before_order(t[j], t[i], x);
            if j < p {
                assert(t[i] == s[i] && t[j] == s[j]);
            } else if j == p {
                assert(t[j] == x && t[i] == s[i]);
            } else if i < p {
                assert(t[j] == s[j - 1] && t[i] == s[i]);
            } else if i == p {
                assert(t[i] == x && t[j] == s[j - 1]);
                assert(hits_before(x, s[p]));
                lemma_hits_before_order(s[j - 1], x, s[p]);
                if j - 1 > p {
                    assert(!hits_before(s[j - 1], s[p]));
                }
            } else {
                assert(t[i] == s[i - 1] && t[j] == s[j - 1]);
            }
        }
    }
}

/// An entry of a directory listing.
pub struct FileEntry {
    pub path: String,
    pub is_directory: bool,
    pub size: Option<u64>,
    pub permissions: Option<String>,
}

/// What a directory listing returns.
pub struct FileListResult {
    pub entries: Vec<FileEntry>,
    pub base_path: String,
}

/// Directories come before files, and entries of the same kind by name.
pub open spec fn entry_before(a: FileEntry, b: FileEntry) -> bool {
    (a.is_directory && !b.is_directory) || (a.is_directory == b.is_directory && text_less(
        a.path@,
        b.path@,
    ))
}

pub open spec fn entry_insert_index(s: Seq<FileEntry>, x: FileEntry, i: int) -> int
    decreases s.len() - i,
{
    if i >= s.len() {
        s.len() as int
    } else if entry_before(x, s[i]) {
        i
    } else {
        entry_insert_index(s, x, i + 1)
    }
}

/// The entries in listing order (a stable insertion sort by [`entry_before`]).
pub open spec fn sort_entries(v: Seq<FileEntry>) -> Seq<FileEntry>
    decreases v.len(),
{
    if v.len() == 0 {
        Seq::empty()
    } else {
        let s = sort_entries(v.drop_last());
        s.insert(entry_insert_index(s, v.last(), 0), v.last())
    }
}

fn entry_before_exec(a: &FileEntry, b: &FileEntry) -> (r: bool)
    ensures
        r == entry_before(*a, *b),
{
    if a.is_directory && !b.is_directory {
        true
    } else if a.is_directory == b.is_directory {
        str_less(a.path.as_str(), b.path.as_str())
    } else {
        false
    }
}

/// The listing of `base_path` with its entries in order: directories
/// first, then files, each by name.
pub fn assemble_file_list(entries: Vec<FileEntry>, base_path: String) -> (r: FileListResult)
    ensures
        r.entries@ == sort_entries(entries@),
        r.base_path == base_path,
{
    let ghost orig = entries@;
    let mut rest = entries;
    let mut sorted: Vec<FileEntry> = Vec::new();
    let ghost mut i: int = 0;
    assert(orig.take(0) =~= Seq::<FileEntry>::empty());
    assert(orig.skip(0) =~= orig);
    while rest.len() > 0
        invariant
            0 <= i <= orig.len(),
            rest@ == orig.skip(i),
            sorted@ == sort_entries(orig.take(i)),
        decreases rest.len(),
    {
        let x = rest.remove(0);
        assert(orig.take(i + 1).drop_last() =~= orig.take(i));
        assert(rest@ =~= orig.skip(i + 1));
        let ghost s0 = sorted@;
        let mut pos: usize = 0;
        while pos < sorted.len() && !entry_before_exec(&x, &sorted[pos])
            invariant
                pos <= sorted.len(),
                s0 == sorted@,
                entry_insert_index(s0, x, 0) == entry_insert_index(s0, x, pos as int),
            decreases sorted.len() - pos,
        {
            pos = pos + 1;
        }
        sorted.insert(pos, x);
        proof {
            i = i + 1;
        }
    }
    assert(orig.take(i) =~= orig);
    FileListResult { entries: sorted, base_path }
}

proof fn lemma_entry_insert_index(s: Seq<FileEntry>, x: FileEntry, i: int)
    requires
        0 <= i <= s.len(),
    ensures
        i <= entry_insert_index(s, x, i) <= s.len(),
        forall|k: int| i <= k < entry_insert_index(s, x, i) ==> !entry_before(x, s[k]),
        entry_insert_index(s, x, i) < s.len() ==> entry_before(x, s[entry_insert_index(s, x, i)]),
    decreases s.len() - i,
{
    if i < s.len() && !entry_before(x, s[i]) {
        lemma_entry_insert_index(s, x, i + 1);
    }
}

proof fn lemma_entry_before_order(a: FileEntry, b: FileEntry, c: FileEntry)
    ensures
        !entry_before(a, a),
        !(entry_before(a, b) && entry_before(b, a)),
        entry_before(a, b) && entry_before(b, c) ==> entry_before(a, c),
{
    lemma_text_less_irreflexive(a.path@);
    lemma_text_less_asymmetric(a.path@, b.path@);
    if entry_before(a, b) && entry_before(b, c) && a.is_directory == b.is_directory
        && b.is_directory == c.is_directory {
        lemma_text_less_transitive(a.path@, b.path@, c.path@);
    }
}

/// No entry in `s` comes before one that precedes it.
pub open spec fn entries_sorted(s: Seq<FileEntry>) -> bool {
    forall|i: int, j: int| 0 <= i < j < s.len() ==> !entry_before(#[trigger] s[j], #[trigger] s[i])
}

/// Directory listings show directories first, and entries of the same kind
/// by name: the sorted entries have none before one that should precede it.
pub proof fn law_listing_directories_first_then_by_name(v: Seq<FileEntry>)
    ensures
        entries_sorted(sort_entries(v)),
        sort_entries(v).len() == v.len(),
    decreases v.len(),
{
    if v.len() > 0 {
        law_listing_directories_first_then_by_name(v.drop_last());
        let s = sort_entries(v.drop_last());
        let x = v.last();
        lemma_entry_insert_index(s, x, 0);
        let p = entry_insert_index(s, x, 0);
        let t = s.insert(p, x);
        assert forall|i: int, j: int| 0 <= i < j < t.len() implies !entry_before(
            #[trigger] t[j],
            #[trigger] t[i],
        ) by {
            lemma_entry_before_order(t[j], t[i], x);
            if j < p {
                assert(t[i] == s[i] && t[j] == s[j]);
            } else if j == p {
                assert(t[j] == x && t[i] == s[i]);
            } else if i < p {
                assert(t[j] == s[j - 1] && t[i] == s[i]);
            } else if i == p {
                assert(t[i] == x && t[j] == s[j - 1]);
                assert(entry_before(x, s[p]));
                lemma_entry_before_order(s[j - 1], x, s[p]);
                if j - 1 > p {
                    assert(!entry_before(s[j - 1], s[p]));
                }
            } else {
                assert(t[i] == s[i - 1] && t[j] == s[j - 1]);
            }
        }
    }
}

/// AST search results come by file, then by line.
pub open spec fn match_before(a: MatchModel, b: MatchModel) -> bool {
    text_less(a.file_path, b.file_path) || (a.file_path == b.file_path && a.line_number
        < b.line_number)
}

pub open spec fn match_insert_index(s: Seq<MatchModel>, x: MatchModel, i: int) -> int
    decreases s.len() - i,
{
    if i >= s.len() {
        s.len() as int
    } else if match_before(x, s[i]) {
        i
    } else {
        match_insert_index(s, x, i + 1)
    }
}

/// The matches by file, then line (a stable insertion sort by [`match_before`]).
pub open spec fn sort_matches(v: Seq<MatchModel>) -> Seq<MatchModel>
    decreases v.len(),
{
    if v.len() == 0 {
        Seq::empty()
    } else {
        let s = sort_matches(v.drop_last());
        s.insert(match_insert_index(s, v.last(), 0), v.last())
    }
}

fn match_before_exec(a: &SearchMatch, b: &SearchMatch) -> (r: bool)
    ensures
        r == match_before(match_model(*a), match_model(*b)),
{
    if str_less(a.file_path.as_str(), b.file_path.as_str()) {
        true
    } else if a.file_path == b.file_path {
        a.line_number < b.line_number
    } else {
        false
    }
}

/// Orders AST search matches by file path, then line number, keeping the
/// order in which they were found among matches on the same line.
pub fn sort_search_matches(matches: Vec<SearchMatch>) -> (r: Vec<SearchMatch>)
    ensures
        matches_model(r@) == sort_matches(matches_model(matches@)),
{
    let ghost orig = matches@;
    let mut rest = matches;
    let mut sorted: Vec<SearchMatch> = Vec::new();
    let ghost mut i: int = 0;
    assert(orig.take(0) =~= Seq::<SearchMatch>::empty());
    assert(matches_model(orig.take(0)) =~= Seq::<MatchModel>::empty());
    assert(orig.skip(0) =~= orig);
    while rest.len() > 0
        invariant
            0 <= i <= orig.len(),
            rest@ == orig.skip(i),
            matches_model(sorted@) == sort_matches(matches_model(orig.take(i))),
        decreases rest.len(),
    {
        let x = rest.remove(0);
        assert(orig.take(i + 1).drop_last() =~= orig.take(i));
        assert(matches_model(orig.take(i + 1)).drop_last() =~= matches_model(orig.take(i)));
        assert(matches_model(orig.take(i + 1)).last() == match_model(x));
        assert(rest@ =~= orig.skip(i + 1));
        let ghost sm = matches_model(sorted@);
        let mut pos: usize = 0;
        while pos < sorted.len() && !match_before_exec(&x, &sorted[pos])
            invariant
                pos <= sorted.len(),
                sm == matches_model(sorted@),
                sm.len() == sorted.len(),
                match_insert_index(sm, match_model(x), 0) == match_insert_index(
                    sm,
                    match_model(x),
                    pos as int,
                ),
            decreases sorted.len() - pos,
        {
            assert(sm[pos as int] == match_model(sorted@[pos as int]));
            pos = pos + 1;
        }
        proof {
            if pos < sorted.len() {
                assert(sm[pos as int] == match_model(sorted@[pos as int]));
            }
        }
        let ghost xm = match_model(x);
        sorted.insert(pos, x);
        assert(matches_model(sorted@) =~= sm.insert(pos as int, xm));
        proof {
            i = i + 1;
        }
    }
    assert(orig.take(i) =~= orig);
    sorted
}

/// The views of strings.
proof fn lemma_match_insert_index(s: Seq<MatchModel>, x: MatchModel, i: int)
    requires
        0 <= i <= s.len(),
    ensures
        i <= match_insert_index(s, x, i) <= s.len(),
        forall|k: int| i <= k < match_insert_index(s, x, i) ==> !match_before(x, s[k]),
        match_insert_index(s, x, i) < s.len() ==> match_before(x, s[match_insert_index(s, x, i)]),
    decreases s.len() - i,
{
    if i < s.len() && !match_before(x, s[i]) {
        lemma_match_insert_index(s, x, i + 1);
    }
}

proof fn lemma_match_before_order(a: MatchModel, b: MatchModel, c: MatchModel)
    ensures
        !match_before(a, a),
        !(match_before(a, b) && match_before(b, a)),
        match_before(a, b) && match_before(b, c) ==> match_before(a, c),
{
    lemma_text_less_irreflexive(a.file_path);
    lemma_text_less_asymmetric(a.file_path, b.file_path);
    if match_before(a, b) && match_before(b, c) {
        if text_less(a.file_path, b.file_path) && text_less(b.file_path, c.file_path) {
            lemma_text_less_transitive(a.file_path, b.file_path, c.file_path);
        }
    }
}

/// No match in `s` comes before one that precedes it.
pub open spec fn matches_sorted(s: Seq<MatchModel>) -> bool {
    forall|i: int, j: int| 0 <= i < j < s.len() ==> !match_before(#[trigger] s[j], #[trigger] s[i])
}

/// Structural search results come by file path, then by line: whatever
/// was found, the sorted matches have none before one that should precede it.
pub proof fn law_ast_matches_by_file_then_line(v: Seq<MatchModel>)
    ensures
        matches_sorted(sort_matches(v)),
        sort_matches(v).len() == v.len(),
    decreases v.len(),
{
    if v.len() > 0 {
        law_ast_matches_by_file_then_line(v.drop_last());
        let s = sort_matches(v.drop_last());
        let x = v.last();
        lemma_match_insert_index(s, x, 0);
        let p = match_insert_index(s, x, 0);
        let t = s.insert(p, x);
        assert forall|i: int, j: int| 0 <= i < j < t.len() implies !match_before(
            #[trigger] t[j],
            #[trigger] t[i],
        ) by {
            lemma_match_before_order(t[j], t[i], x);
            if j < p {
                assert(t[i] == s[i] && t[j] == s[j]);
            } else if j == p {
                assert(t[j] == x && t[i] == s[i]);
            } else if i < p {
                assert(t[j] == s[j - 1] && t[i] == s[i]);
            } else if i == p {
                assert(t[i] == x && t[j] == s[j - 1]);
                assert(match_before(x, s[p]));
                lemma_match_before_order(s[j - 1], x, s[p]);
                if j - 1 > p {
                    assert(!match_before(s[j - 1], s[p]));
                }
            } else {
                assert(t[i] == s[i - 1] && t[j] == s[j - 1]);
            }
        }
    }
}

pub open spec fn texts_of(v: Seq<String>) -> Seq<Seq<char>> {
    v.map_values(|x: String| x@)
}

pub open spec fn text_insert_index(s: Seq<Seq<char>>, x: Seq<char>, i: int) -> int
    decreases s.len() - i,
{
    if i >= s.len() {
        s.len() as int
    } else if text_less(x, s[i]) {
        i
    } else {
        text_insert_index(s, x, i + 1)
    }
}

/// The texts in ascending order (a stable insertion sort by [`text_less`]).
pub open spec fn sort_texts(v: Seq<Seq<char>>) -> Seq<Seq<char>>
    decreases v.len(),
{
    if v.len() == 0 {
        Seq::empty()
    } else {
        let s = sort_texts(v.drop_last());
        s.insert(text_insert_index(s, v.last(), 0), v.last())
    }
}

proof fn lemma_text_insert_index(s: Seq<Seq<char>>, x: Seq<char>, i: int)
    requires
        0 <= i <= s.len(),
    ensures
        i <= text_insert_index(s, x, i) <= s.len(),
        forall|k: int| i <= k < text_insert_index(s, x, i) ==> !text_less(x, s[k]),
        text_insert_index(s, x, i) < s.len() ==> text_less(x, s[text_insert_index(s, x, i)]),
    decreases s.len() - i,
{
    if i < s.len() && !text_less(x, s[i]) {
        lemma_text_insert_index(s, x, i + 1);
    }
}

/// Glob results come in ascending order: no path comes before a smaller one.
pub proof fn law_glob_matches_ascending(v: Seq<Seq<char>>)
    ensures
        forall|i: int, j: int|
            0 <= i < j < sort_texts(v).len() ==> !text_less(
                #[trigger] sort_texts(v)[j],
                #[trigger] sort_texts(v)[i],
            ),
        sort_texts(v).len() == v.len(),
    decreases v.len(),
{
    if v.len() > 0 {
        law_glob_matches_ascending(v.drop_last());
        let s = sort_texts(v.drop_last());
        let x = v.last();
        lemma_text_insert_index(s, x, 0);
        let p = text_insert_index(s, x, 0);
        let t = s.insert(p, x);
        assert forall|i: int, j: int| 0 <= i < j < t.len() implies !text_less(
            #[trigger] t[j],
            #[trigger] t[i],
        ) by {
            lemma_text_less_irreflexive(t[j]);
            lemma_text_less_asymmetric(t[j], t[i]);
            if j < p {
                assert(t[i] == s[i] && t[j] == s[j]);
            } else if j == p {
                assert(t[j] == x && t[i] == s[i]);
            } else if i < p {
                assert(t[j] == s[j - 1] && t[i] == s[i]);
            } else if i == p {
                assert(t[i] == x && t[j] == s[j - 1]);
                assert(text_less(x, s[p]));
                if text_less(s[j - 1], x) {
                    lemma_text_less_transitive(s[j - 1], x, s[p]);
                }
                if j - 1 > p {
                    assert(!text_less(s[j - 1], s[p]));
                }
            } else {
                assert(t[i] == s[i - 1] && t[j] == s[j - 1]);
            }
        }
    }
}

/// The paths a glob matched, in ascending order.
pub fn sort_glob_matches(paths: Vec<String>) -> (r: Vec<String>)
    ensures
        texts_of(r@) == sort_texts(texts_of(paths@)),
{
    let ghost orig = paths@;
    let mut rest = paths;
    let mut sorted: Vec<String> = Vec::new();
    let ghost mut i: int = 0;
    assert(orig.take(0) =~= Seq::<String>::empty());
    assert(texts_of(orig.take(0)) =~= Seq::<Seq<char>>::empty());
    assert(orig.skip(0) =~= orig);
    while rest.len() > 0
        invariant
            0 <= i <= orig.len(),
            rest@ == orig.skip(i),
            texts_of(sorted@) == sort_texts(texts_of(orig.take(i))),
        decreases rest.len(),
    {
        let x = rest.remove(0);
        assert(orig.take(i + 1).drop_last() =~= orig.take(i));
        assert(texts_of(orig.take(i + 1)).drop_last() =~= texts_of(orig.take(i)));
        assert(texts_of(orig.take(i + 1)).last() == x@);
        assert(rest@ =~= orig.skip(i + 1));
        let ghost sm = texts_of(sorted@);
        let mut pos: usize = 0;
        while pos < sorted.len() && !str_less(x.as_str(), sorted[pos].as_str())
            invariant
                pos <= sorted.len(),
                sm == texts_of(sorted@),
                sm.len() == sorted.len(),
                text_insert_index(sm, x@, 0) == text_insert_index(sm, x@, pos as int),
            decreases sorted.len() - pos,
        {
            assert(sm[pos as int] == sorted@[pos as int]@);
            pos = pos + 1;
        }
        proof {
            if pos < sorted.len() {
                assert(sm[pos as int] == sorted@[pos as int]@);
            }
        }
        let ghost xv = x@;
        sorted.insert(pos, x);
        assert(texts_of(sorted@) =~= sm.insert(pos as int, xv));
        proof {
            i = i + 1;
        }
    }
    assert(orig.take(i) =~= orig);
    sorted
}

/// The glob searched for: the pattern under the base path.
pub fn glob_pattern_for(base_path: &str, pattern: &str) -> (r: String)
    ensures
        r@ == base_path@ + seq!['/'] + pattern@,
{
    let mut r = String::new();
    push_str(&mut r, base_path);
    push_char(&mut r, '/');
    push_str(&mut r, pattern);
    r
}

/// The error for a glob that does not compile.
pub fn invalid_glob_message(glob_pattern: &str, error: &str) -> (r: String)
    ensures
        r@ == "Invalid glob pattern '"@ + glob_pattern@ + "': "@ + error@,
{
    let mut r = String::new();
    push_str(&mut r, "Invalid glob pattern '");
    push_str(&mut r, glob_pattern);
    push_str(&mut r, "': ");
    push_str(&mut r, error);
    r
}

/// The error for a path the glob walk could not read.
pub fn glob_entry_error_message(glob_pattern: &str, error: &str) -> (r: String)
    ensures
        r@ == "Error matching glob pattern '"@ + glob_pattern@ + "': "@ + error@,
{
    let mut r = String::new();
    push_str(&mut r, "Error matching glob pattern '");
    push_str(&mut r, glob_pattern);
    push_str(&mut r, "': ");
    push_str(&mut r, error);
    r
}

/// A file passes an include glob as soon as the glob matches any one of its
/// full path, its path relative to the search root, or its file name; and
/// it passes only then.
pub proof fn law_glob_hit_by_path_or_name(
    pattern: Seq<char>,
    full: Option<Seq<char>>,
    relative: Option<Seq<char>>,
    name: Option<Seq<char>>,
)
    ensures
        full matches Some(f) && glob_matches(pattern, f) ==> path_glob_hit(pattern, full, relative, name),
        relative matches Some(r) && glob_matches(pattern, r) ==> path_glob_hit(pattern, full, relative, name),
        name matches Some(n) && glob_matches(pattern, n) ==> path_glob_hit(pattern, full, relative, name),
        path_glob_hit(pattern, full, relative, name) ==> (full matches Some(f) && glob_matches(pattern, f))
            || (relative matches Some(r) && glob_matches(pattern, r))
            || (name matches Some(n) && glob_matches(pattern, n)),
{
}

} // verus!
