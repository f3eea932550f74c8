//! Structural search with ast-grep: which language a file is parsed as, and
//! how each syntax node that a pattern finds becomes a search match.

use vstd::prelude::*;
use ast_grep_core::Pattern;
use ast_grep_language::{LanguageExt, SupportLang};
use crate::attachments::{char_index_at_byte, char_index_for_offset, column_at};
use crate::edit::{
    count_newlines,
    lemma_line_end_bounds,
    lemma_line_start_bounds,
    line_bounds_for_index,
    line_end_of,
    line_start_of,
};
use crate::search::{
    match_model,
    matches_model,
    sort_matches,
    sort_search_matches,
    MatchModel,
    SearchMatch,
    SearchResult,
};
use crate::text::{
    byte_len,
    byte_offset,
    chars_of,
    is_boundary,
    lemma_byte_len_concat,
    lemma_byte_offset_monotone,
    str_byte_len,
    string_from_chars,
    trim_chars,
    trim_seq,
};

verus! {

/// The canonical name (`SupportLang`'s `Display`) of the language with an
/// alias equal to `name`, ASCII case ignored; `None` when no alias is.
pub uninterp spec fn parsed_language(name: Seq<char>) -> Option<Seq<char>>;

/// `SupportLang::from_str`, the language given by its canonical name. The
/// canonical name (the variant's name) is itself an alias up to ASCII case,
/// so it parses back to the same language.
#[verifier::external_body]
fn parse_language(name: &str) -> (r: Option<String>)
    ensures
        match r {
            Some(id) => parsed_language(name@) == Some(id@) && parsed_language(id@) == Some(id@),
            None => parsed_language(name@) is None,
        },
{
    name.parse::<SupportLang>().ok().map(|l| l.to_string())
}

/// The canonical name of the language registered for the extension of
/// `path`, or `None`.
pub uninterp spec fn path_language(path: Seq<char>) -> Option<Seq<char>>;

/// `Language::from_path` of `SupportLang`, the language given by its
/// canonical name, which parses back to the same language.
#[verifier::external_body]
fn language_from_path(path: &str) -> (r: Option<String>)
    ensures
        match r {
            Some(id) => path_language(path@) == Some(id@) && parsed_language(id@) == Some(id@),
            None => path_language(path@) is None,
        },
{
    <SupportLang as ast_grep_language::Language>::from_path(std::path::Path::new(path))
        .map(|l| l.to_string())
}

/// The extension of the file name of `path`, as `Path::extension` gives it.
pub uninterp spec fn path_extension(path: Seq<char>) -> Option<Seq<char>>;

/// `Path::extension` of `path` as text (a part of a `&str` is valid text).
#[verifier::external_body]
fn file_extension(path: &str) -> (r: Option<String>)
    ensures
        match r {
            Some(e) => path_extension(path@) == Some(e@),
            None => path_extension(path@) is None,
        },
{
    std::path::Path::new(path).extension().and_then(|e| e.to_str()).map(|e| e.to_owned())
}

/// The canonical name of `SupportLang::JavaScript` (its `Display`, the
/// variant's name), which parses back to JavaScript.
#[verifier::external_body]
fn javascript() -> (r: String)
    ensures
        r@ == "JavaScript"@,
        parsed_language(r@) == Some(r@),
{
    SupportLang::JavaScript.to_string()
}

/// A language that ast-grep supports, by its canonical name.
pub struct LanguageId {
    name: String,
}

impl View for LanguageId {
    type V = Seq<char>;

    closed spec fn view(&self) -> Seq<char> {
        self.name@
    }
}

impl LanguageId {
    /// The name is one that ast-grep parses back to the same language.
    #[verifier::type_invariant]
    spec fn known(self) -> bool {
        parsed_language(self.name@) == Some(self.name@)
    }

    /// The canonical name of the language.
    pub fn name(&self) -> (r: &str)
        ensures
            r@ == self@,
    {
        self.name.as_str()
    }
}

pub open spec fn opt_str_view(o: Option<&str>) -> Option<Seq<char>> {
    match o {
        Some(s) => Some(s@),
        None => None,
    }
}

/// The language a file is searched as: the one named by `lang` when it is
/// given; else the one registered for the file's extension; else
/// JavaScript for the extensions `jsx` and `mjs`; else none.
pub open spec fn detected_language(lang: Option<Seq<char>>, path: Seq<char>) -> Option<Seq<char>> {
    match lang {
        Some(name) => parsed_language(name),
        None => match path_language(path) {
            Some(id) => Some(id),
            None => if path_extension(path) == Some(seq!['j', 's', 'x']) || path_extension(path)
                == Some(seq!['m', 'j', 's']) {
                Some("JavaScript"@)
            } else {
                None
            },
        },
    }
}

fn is_script_extension(ext: &str) -> (b: bool)
    ensures
        b == (ext@ == seq!['j', 's', 'x'] || ext@ == seq!['m', 'j', 's']),
{
    let c = chars_of(ext);
    if c.len() != 3 {
        return false;
    }
    let jsx = c[0] == 'j' && c[1] == 's' && c[2] == 'x';
    let mjs = c[0] == 'm' && c[1] == 'j' && c[2] == 's';
    assert(jsx ==> c@ =~= seq!['j', 's', 'x']);
    assert(mjs ==> c@ =~= seq!['m', 'j', 's']);
    jsx || mjs
}

/// The language that the file at `path` is searched as; `None` when the
/// file is to be skipped.
pub fn detect_language(lang: Option<&str>, path: &str) -> (r: Option<LanguageId>)
    ensures
        match r {
            Some(l) => detected_language(opt_str_view(lang), path@) == Some(l@),
            None => detected_language(opt_str_view(lang), path@) is None,
        },
{
    let found = match lang {
        Some(name) => parse_language(name),
        None => match language_from_path(path) {
            Some(id) => Some(id),
            None => match file_extension(path) {
                Some(ext) => {
                    if is_script_extension(ext.as_str()) {
                        Some(javascript())
                    } else {
                        None
                    }
                },
                None => None,
            },
        },
    };
    match found {
        Some(name) => Some(LanguageId { name }),
        None => None,
    }
}

/// A syntax node that a pattern matched: its byte range in the source, its
/// zero-based line and character column, and its text.
pub struct AstNode {
    pub start: usize,
    pub end: usize,
    pub line: usize,
    pub column: usize,
    pub text: String,
}

/// The plain values of an [`AstNode`].
pub struct AstNodeView {
    pub start: usize,
    pub end: usize,
    pub line: usize,
    pub column: usize,
    pub text: Seq<char>,
}

impl View for AstNode {
    type V = AstNodeView;

    open spec fn view(&self) -> AstNodeView {
        AstNodeView {
            start: self.start,
            end: self.end,
            line: self.line,
            column: self.column,
            text: self.text@,
        }
    }
}

pub open spec fn nodes_view(v: Seq<AstNode>) -> Seq<AstNodeView> {
    v.map_values(|n: AstNode| n@)
}

/// What holds of every node found in `content`: its range lies on
/// character boundaries, its text is the source in that range, its line
/// counts the newlines before it and its column the characters between the
/// last of them and its start.
pub open spec fn node_placed(content: Seq<char>, n: AstNodeView) -> bool {
    let a = char_index_at_byte(content, n.start as int);
    let b = char_index_at_byte(content, n.end as int);
    &&& is_boundary(content, n.start as int)
    &&& is_boundary(content, n.end as int)
    &&& n.start <= n.end
    &&& n.text == content.subrange(a, b)
    &&& n.line == count_newlines(content.take(a))
    &&& n.column == column_at(content, a)
}

/// The error, as displayed, of `Pattern::try_new(pattern, lang)` for the
/// language named `lang`; `None` when the pattern compiles.
pub uninterp spec fn pattern_compile_error(pattern: Seq<char>, lang: Seq<char>) -> Option<Seq<char>>;

/// `Pattern::try_new(pattern, lang)` for the language named `lang`: its
/// error as text, or `None` when the pattern compiles.
#[verifier::external_body]
fn compile_pattern(pattern: &str, lang: &str) -> (r: Option<String>)
    requires
        parsed_language(lang@) == Some(lang@),
    ensures
        match r {
            Some(e) => pattern_compile_error(pattern@, lang@) == Some(e@),
            None => pattern_compile_error(pattern@, lang@) is None,
        },
{
    match lang.parse::<SupportLang>() {
        Ok(l) => Pattern::try_new(pattern, l).err().map(|e| e.to_string()),
        Err(e) => Some(e.to_string()),
    }
}

/// The nodes of `content`, parsed as the language named `lang`, that the
/// compiled `pattern` matches, in the order `Node::find_all` yields them.
pub uninterp spec fn pattern_nodes(content: Seq<char>, pattern: Seq<char>, lang: Seq<char>) -> Seq<
    AstNodeView,
>;

/// Parses `content` as the language named `lang` (`LanguageExt::ast_grep`)
/// and lists the nodes that `pattern` matches (`Node::find_all`), each by
/// `Node::range`, `Position::line`, `Position::column` and `Node::text`.
/// Also stated of each node: `Node::text` slices the source by the byte
/// range (tree-sitter's `utf8_text`, which fails off character boundaries
/// and is unwrapped), `Position::column` counts the characters after the
/// last newline before the start (`get_char_column`), and the line counts
/// the newlines before it (tree-sitter's lexer adds a row at each `\n`).
#[verifier::external_body]
fn find_pattern_nodes(content: &str, pattern: &str, lang: &str) -> (nodes: Vec<AstNode>)
    requires
        parsed_language(lang@) == Some(lang@),
        pattern_compile_error(pattern@, lang@) is None,
    ensures
        nodes_view(nodes@) == pattern_nodes(content@, pattern@, lang@),
        forall|i: int| 0 <= i < nodes.len() ==> node_placed(content@, #[trigger] nodes@[i]@),
{
    let Ok(lang) = lang.parse::<SupportLang>() else { return Vec::new() };
    let Ok(pattern) = Pattern::try_new(pattern, lang) else { return Vec::new() };
    let grep = lang.ast_grep(content);
    let root = grep.root();
    let found = root.find_all(&pattern).map(|m| {
        let node = m.get_node();
        let (pos, range, text) = (node.start_pos(), node.range(), node.text().to_string());
        AstNode { start: range.start, end: range.end, line: pos.line(), column: pos.column(node), text }
    });
    found.collect()
}

/// The search match for node `n` of the file at `path`: 1-based line and
/// column, the column range spanning the node's text in bytes, and the
/// trimmed text of the lines that the node spans.
pub open spec fn ast_match_model(content: Seq<char>, path: Seq<char>, n: AstNodeView) -> MatchModel {
    let a = char_index_at_byte(content, n.start as int);
    let b = char_index_at_byte(content, n.end as int);
    MatchModel {
        file_path: path,
        line_number: (n.line + 1) as usize,
        line_content: trim_seq(content.subrange(line_start_of(content, a), line_end_of(content, b))),
        column_range: Some(((n.column + 1) as usize, (n.column + 1 + byte_len(n.text)) as usize)),
    }
}

pub open spec fn ast_matches_model(content: Seq<char>, path: Seq<char>, nodes: Seq<AstNodeView>) -> Seq<
    MatchModel,
> {
    nodes.map_values(|n: AstNodeView| ast_match_model(content, path, n))
}

proof fn lemma_count_newlines_bound(s: Seq<char>)
    ensures
        count_newlines(s) <= s.len(),
    decreases s.len(),
{
    if s.len() > 0 {
        lemma_count_newlines_bound(s.drop_last());
    }
}

/// The numbers a match is built from fit in `usize`, and the character
/// indices of the node's ends are ordered.
proof fn lemma_node_bounds(content: Seq<char>, n: AstNodeView)
    requires
        node_placed(content, n),
        byte_len(content) < usize::MAX,
    ensures
        0 <= char_index_at_byte(content, n.start as int) <= char_index_at_byte(
            content,
            n.end as int,
        ) <= content.len(),
        byte_offset(content, char_index_at_byte(content, n.start as int)) == n.start,
        byte_offset(content, char_index_at_byte(content, n.end as int)) == n.end,
        n.line + 1 <= usize::MAX,
        n.column + 1 + byte_len(n.text) <= usize::MAX,
{
    let a = char_index_at_byte(content, n.start as int);
    let b = char_index_at_byte(content, n.end as int);
    let wa = choose|k: int| 0 <= k <= content.len() && #[trigger] byte_offset(content, k) == n.start;
    let wb = choose|k: int| 0 <= k <= content.len() && #[trigger] byte_offset(content, k) == n.end;
    assert(0 <= a <= content.len() && byte_offset(content, a) == n.start);
    assert(0 <= b <= content.len() && byte_offset(content, b) == n.end);
    if b < a {
        lemma_byte_offset_monotone(content, b, a);
    }
    lemma_byte_offset_monotone(content, 0, a);
    lemma_byte_offset_monotone(content, a, b);
    assert(content.take(0) =~= Seq::<char>::empty());
    assert(byte_offset(content, 0) == 0);
    lemma_count_newlines_bound(content.take(a));
    lemma_line_start_bounds(content, a);
    assert(content.take(b) =~= content.take(a) + content.subrange(a, b));
    lemma_byte_len_concat(content.take(a), content.subrange(a, b));
}

/// Turns the nodes found in the file at `path`, whose text is `content`,
/// into search matches, in the same order.
pub fn find_matches(nodes: &Vec<AstNode>, path: &str, content: &str) -> (r: Vec<SearchMatch>)
    requires
        byte_len(content@) < usize::MAX,
        forall|i: int| 0 <= i < nodes.len() ==> node_placed(content@, #[trigger] nodes@[i]@),
    ensures
        matches_model(r@) == ast_matches_model(content@, path@, nodes_view(nodes@)),
{
    let chars = chars_of(content);
    let mut out: Vec<SearchMatch> = Vec::new();
    let mut i: usize = 0;
    while i < nodes.len()
        invariant
            i <= nodes.len(),
            chars@ == content@,
            byte_len(content@) < usize::MAX,
            forall|j: int| 0 <= j < nodes.len() ==> node_placed(content@, #[trigger] nodes@[j]@),
            matches_model(out@) == ast_matches_model(content@, path@, nodes_view(nodes@.take(i as int))),
        decreases nodes.len() - i,
    {
        let node = &nodes[i];
        assert(node_placed(content@, nodes@[i as int]@));
        proof {
            lemma_node_bounds(content@, node@);
        }
        let a = char_index_for_offset(&chars, node.start);
        let b = char_index_for_offset(&chars, node.end);
        let (ls, _) = line_bounds_for_index(&chars, a);
        let (_, le) = line_bounds_for_index(&chars, b);
        proof {
            lemma_line_start_bounds(content@, a as int);
            lemma_line_end_bounds(content@, b as int);
        }
        let context = trim_chars(&chars, ls, le);
        let text_len = str_byte_len(node.text.as_str());
        let first_column = node.column + 1;
        let m = SearchMatch {
            file_path: path.to_owned(),
            line_number: node.line + 1,
            line_content: string_from_chars(&context),
            column_range: Some((first_column, first_column + text_len)),
        };
        proof {
            assert(match_model(m) == ast_match_model(content@, path@, node@));
            assert(nodes@.take(i + 1).drop_last() =~= nodes@.take(i as int));
            assert(ast_matches_model(content@, path@, nodes_view(nodes@.take(i + 1))) =~= ast_matches_model(
                content@,
                path@,
                nodes_view(nodes@.take(i as int)),
            ).push(match_model(m)));
        }
        out.push(m);
        proof {
            assert(matches_model(out@) =~= ast_matches_model(content@, path@, nodes_view(nodes@.take(i + 1))));
        }
        i = i + 1;
    }
    assert(nodes@.take(nodes.len() as int) =~= nodes@);
    out
}

/// Searches the text `content` of the file at `path` for `pattern`, parsed
/// as the language `lang`: the error "Invalid pattern: ..." when the pattern
/// does not compile, else one match per node found, in the order found.
pub fn search_ast_content(content: &str, pattern: &str, lang: &LanguageId, path: &str) -> (r: Result<
    Vec<SearchMatch>,
    String,
>)
    requires
        byte_len(content@) < usize::MAX,
    ensures
        match pattern_compile_error(pattern@, lang@) {
            Some(d) => r matches Err(e) && e@ == "Invalid pattern: "@ + d,
            None => r matches Ok(v) && matches_model(v@) == ast_matches_model(
                content@,
                path@,
                pattern_nodes(content@, pattern@, lang@),
            ),
        },
{
    proof {
        use_type_invariant(lang);
    }
    match compile_pattern(pattern, lang.name.as_str()) {
        Some(e) => {
            let mut m = String::new();
            crate::text::push_str(&mut m, "Invalid pattern: ");
            crate::text::push_str(&mut m, e.as_str());
            assert(m@ == "Invalid pattern: "@ + e@);
            Err(m)
        },
        None => {
            let nodes = find_pattern_nodes(content, pattern, lang.name.as_str());
            let v = find_matches(&nodes, path, content);
            Ok(v)
        },
    }
}

/// The result of a structural search: the matches ordered by file, then
/// line, when the search ran to its end; as found when it was cancelled.
pub fn assemble_ast_result(matches: Vec<SearchMatch>, files_searched: usize, completed: bool) -> (r:
    SearchResult)
    ensures
        matches_model(r.matches@) == if completed {
            sort_matches(matches_model(matches@))
        } else {
            matches_model(matches@)
        },
        r.total_files_searched == files_searched,
        r.search_completed == completed,
{
    let ordered = if completed {
        sort_search_matches(matches)
    } else {
        matches
    };
    SearchResult { matches: ordered, total_files_searched: files_searched, search_completed: completed }
}

} // verus!
