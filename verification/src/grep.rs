//! The definition finder: per-line text search and per-language
//! extraction of class and struct definitions. Walking directories and
//! reading files are I/O and live outside the library; this module works
//! on the lines of one file. Pattern matching itself is the regex
//! crate's work, behind trusted wrappers; what the matches mean — which
//! lines form a definition block, where a block ends — is verified here.

use vstd::prelude::*;
use crate::textutil::{chars_of, is_unicode_space, is_unicode_space_exec, string_from_range};

verus! {

/// One text match inside a searched file.
pub struct SearchMatch {
    pub file_path: String,
    pub line_number: usize,
    pub line_content: String,
    pub match_start: usize,
    pub match_end: usize,
}

/// One extracted class or struct definition.
pub struct ClassMatch {
    pub file_path: String,
    pub class_name: String,
    pub start_line: usize,
    pub end_line: usize,
    pub full_definition: String,
    pub language: String,
}

/// Options of the directory search.
pub struct SearchOptions {
    pub case_insensitive: bool,
    pub whole_word: bool,
    pub max_depth: Option<usize>,
    pub file_extensions: Option<Vec<String>>,
    pub ignore_hidden: bool,
    pub ignore_gitignore: bool,
}

impl Default for SearchOptions {
    /// The default search: case-sensitive, substring matches, unlimited
    /// depth, every extension, hidden files and ignored files skipped.
    fn default() -> (r: SearchOptions)
        ensures
            !r.case_insensitive,
            !r.whole_word,
            r.max_depth is None,
            r.file_extensions is None,
            r.ignore_hidden,
            r.ignore_gitignore,
    {
        SearchOptions {
            case_insensitive: false,
            whole_word: false,
            max_depth: None,
            file_extensions: None,
            ignore_hidden: true,
            ignore_gitignore: true,
        }
    }
}

/// The byte-offset spans of every non-overlapping match of a pattern in
/// a text, leftmost first, or nothing when the pattern does not compile.
/// The regex crate computes this from the two texts alone.
pub uninterp spec fn regex_spans(pattern: Seq<char>, hay: Seq<char>) -> Option<
    Seq<(usize, usize)>,
>;

/// Relies on regex::Regex::new and Regex::find_iter: compiles the
/// pattern and collects the byte-offset span of every non-overlapping
/// match in the haystack, leftmost first; None when the pattern is
/// invalid.
#[verifier::external_body]
fn regex_find_spans(pattern: &str, hay: &str) -> (r: Option<Vec<(usize, usize)>>)
    ensures
        r.deep_view() == regex_spans(pattern@, hay@),
{
    let re = match regex::Regex::new(pattern) {
        Ok(re) => re,
        Err(_) => return None,
    };
    Some(re.find_iter(hay).map(|m| (m.start(), m.end())).collect())
}

/// The text of the first capture group of the first match of a pattern
/// in a text; nothing when the pattern is invalid, does not match, or
/// has no such group. The regex crate computes this from the two texts
/// alone.
pub uninterp spec fn regex_capture1(pattern: Seq<char>, hay: Seq<char>) -> Option<Seq<char>>;

/// Relies on regex::Regex::new, Regex::captures and Captures::get: the
/// first capture group of the first match, as text.
#[verifier::external_body]
fn regex_capture1_exec(pattern: &str, hay: &str) -> (r: Option<String>)
    ensures
        r.deep_view() == regex_capture1(pattern@, hay@),
{
    let re = match regex::Regex::new(pattern) {
        Ok(re) => re,
        Err(_) => return None,
    };
    let caps = re.captures(hay)?;
    Some(caps.get(1)?.as_str().to_string())
}

/// A regex metacharacter: the fixed set the regex crate escapes.
pub open spec fn is_regex_meta(c: char) -> bool {
    ||| c == '\\'
    ||| c == '.'
    ||| c == '+'
    ||| c == '*'
    ||| c == '?'
    ||| c == '('
    ||| c == ')'
    ||| c == '|'
    ||| c == '['
    ||| c == ']'
    ||| c == '{'
    ||| c == '}'
    ||| c == '^'
    ||| c == '$'
    ||| c == '#'
    ||| c == '&'
    ||| c == '-'
    ||| c == '~'
}

/// A text with every regex metacharacter escaped: a backslash before
/// each of them, every other character unchanged.
pub open spec fn spec_regex_escaped(s: Seq<char>) -> Seq<char>
    decreases s.len(),
{
    if s.len() == 0 {
        Seq::empty()
    } else {
        (if is_regex_meta(s[0]) {
            seq!['\\', s[0]]
        } else {
            seq![s[0]]
        }) + spec_regex_escaped(s.drop_first())
    }
}

/// Relies on regex::escape: it prefixes a backslash to each character of
/// the fixed metacharacter set and keeps every other character; the crate
/// documents that set as fixed.
#[verifier::external_body]
fn regex_escape_exec(s: &str) -> (r: String)
    ensures
        r@ == spec_regex_escaped(s@),
{
    regex::escape(s)
}

/// The search pattern built from a term and the options: the term
/// escaped, word-bounded when whole words are asked for, case-folded
/// when case-insensitivity is.
pub open spec fn spec_search_pattern(term: Seq<char>, whole_word: bool, case_insensitive: bool) -> Seq<char> {
    let base = if whole_word {
        "\\b"@ + spec_regex_escaped(term) + "\\b"@
    } else {
        spec_regex_escaped(term)
    };
    if case_insensitive {
        "(?i)"@ + base
    } else {
        base
    }
}

/// Builds the regex pattern the directory search scans files with.
pub fn build_search_pattern(term: &str, options: &SearchOptions) -> (r: String)
    ensures
        r@ == spec_search_pattern(term@, options.whole_word, options.case_insensitive),
{
    let escaped = regex_escape_exec(term);
    let mut base = String::new();
    if options.whole_word {
        base.append("\\b");
        base.append(escaped.as_str());
        base.append("\\b");
    } else {
        base.append(escaped.as_str());
        proof {
            assert(base@ =~= spec_regex_escaped(term@));
        }
    }
    let mut r = String::new();
    if options.case_insensitive {
        r.append("(?i)");
        r.append(base.as_str());
    } else {
        r.append(base.as_str());
        proof {
            assert(r@ =~= base@);
        }
    }
    r
}

/// The mathematical view of one search match.
pub open spec fn sm_view(m: SearchMatch) -> (Seq<char>, int, Seq<char>, int, int) {
    (m.file_path@, m.line_number as int, m.line_content@, m.match_start as int, m.match_end as int)
}

/// The mathematical view of a sequence of search matches.
pub open spec fn sms_view(ms: Seq<SearchMatch>) -> Seq<(Seq<char>, int, Seq<char>, int, int)> {
    Seq::new(ms.len(), |k: int| sm_view(ms[k]))
}

/// The matches one line contributes: one record per span, in span order.
pub open spec fn spec_line_matches(
    file: Seq<char>,
    lineno: int,
    line: Seq<char>,
    pattern: Seq<char>,
) -> Seq<(Seq<char>, int, Seq<char>, int, int)> {
    match regex_spans(pattern, line) {
        None => Seq::empty(),
        Some(sp) => Seq::new(sp.len(), |k: int| (file, lineno, line, sp[k].0 as int, sp[k].1 as int)),
    }
}

/// The matches of a whole file from line `i` on, line by line, with
/// one-based line numbers.
pub open spec fn spec_matches_from(
    file: Seq<char>,
    lines: Seq<Seq<char>>,
    pattern: Seq<char>,
    i: int,
) -> Seq<(Seq<char>, int, Seq<char>, int, int)>
    decreases lines.len() - i,
{
    if i < 0 || i >= lines.len() {
        Seq::empty()
    } else {
        spec_line_matches(file, i + 1, lines[i], pattern) + spec_matches_from(
            file,
            lines,
            pattern,
            i + 1,
        )
    }
}

/// Scans the lines of one file with a prepared pattern and returns one
/// match record per regex match, in file order, with one-based line
/// numbers and byte-offset match spans.
#[verifier::loop_isolation(false)]
pub fn search_lines(file_path: &str, lines: &Vec<String>, pattern: &str) -> (r: Vec<SearchMatch>)
    ensures
        sms_view(r@) == spec_matches_from(file_path@, lines.deep_view(), pattern@, 0),
{
    let ghost lv = lines.deep_view();
    let ghost full = spec_matches_from(file_path@, lv, pattern@, 0);
    let mut r: Vec<SearchMatch> = Vec::new();
    let mut i: usize = 0;
    proof {
        assert(sms_view(r@) =~= Seq::<(Seq<char>, int, Seq<char>, int, int)>::empty());
    }
    while i < lines.len()
        invariant
            i <= lines@.len(),
            lv.len() == lines@.len(),
            full == sms_view(r@) + spec_matches_from(file_path@, lv, pattern@, i as int),
        decreases lines@.len() - i,
    {
        let ghost done = sms_view(r@);
        let ghost part = spec_line_matches(file_path@, i + 1, lv[i as int], pattern@);
        proof {
            assert(lv[i as int] == lines@[i as int]@);
        }
        match regex_find_spans(pattern, lines[i].as_str()) {
            None => {
                proof {
                    assert(part =~= Seq::<(Seq<char>, int, Seq<char>, int, int)>::empty());
                    assert(done + (part + spec_matches_from(file_path@, lv, pattern@, i + 1))
                        =~= done + spec_matches_from(file_path@, lv, pattern@, i + 1));
                }
            },
            Some(spans) => {
                proof {
                    assert forall|j: int| 0 <= j < spans@.len() implies spans.deep_view()[j]
                        == spans@[j] by {
                        assert(spans.deep_view()[j] == (spans@[j].0, spans@[j].1));
                    }
                    assert(spans.deep_view() =~= spans@);
                    assert(regex_spans(pattern@, lv[i as int]) == Some(spans@));
                    assert(part.len() == spans@.len());
                }
                let mut k: usize = 0;
                while k < spans.len()
                    invariant
                        k <= spans@.len(),
                        part.len() == spans@.len(),
                        regex_spans(pattern@, lv[i as int]) == Some(spans@),
                        sms_view(r@) == done + part.take(k as int),
                    decreases spans@.len() - k,
                {
                    let m = SearchMatch {
                        file_path: String::from_str(file_path),
                        line_number: i + 1,
                        line_content: lines[i].clone(),
                        match_start: spans[k].0,
                        match_end: spans[k].1,
                    };
                    proof {
                        assert(part[k as int] == (
                            file_path@,
                            i + 1 as int,
                            lv[i as int],
                            spans@[k as int].0 as int,
                            spans@[k as int].1 as int,
                        ));
                        assert(sm_view(m) == part[k as int]);
                    }
                    let ghost prev = sms_view(r@);
                    r.push(m);
                    proof {
                        assert(sms_view(r@) =~= prev.push(sm_view(m)));
                        assert(part.take(k + 1) =~= part.take(k as int).push(part[k as int]));
                        assert(sms_view(r@) =~= done + part.take(k + 1));
                    }
                    k = k + 1;
                }
                proof {
                    assert(part.take(spans@.len() as int) =~= part);
                    assert(done + (part + spec_matches_from(file_path@, lv, pattern@, i + 1))
                        =~= (done + part) + spec_matches_from(file_path@, lv, pattern@, i + 1));
                }
            },
        }
        i = i + 1;
    }
    r
}

/// The length of a line's leading indentation: its maximal leading run
/// of Unicode white-space characters.
pub open spec fn spec_indent_len(s: Seq<char>) -> int
    decreases s.len(),
{
    if s.len() == 0 || !is_unicode_space(s[0]) {
        0
    } else {
        1 + spec_indent_len(s.drop_first())
    }
}

proof fn lemma_indent_len_at(s: Seq<char>, j: int)
    requires
        0 <= j <= s.len(),
        forall|k: int| 0 <= k < j ==> is_unicode_space(#[trigger] s[k]),
        j < s.len() ==> !is_unicode_space(s[j]),
    ensures
        spec_indent_len(s) == j,
    decreases j,
{
    if j > 0 {
        let d = s.drop_first();
        assert(forall|k: int| 0 <= k < j - 1 ==> #[trigger] d[k] == s[k + 1]);
        lemma_indent_len_at(d, j - 1);
    }
}

/// Counts a line's leading white-space characters.
#[verifier::loop_isolation(false)]
pub fn get_base_indent(line: &str) -> (r: usize)
    ensures
        r as int == spec_indent_len(line@),
{
    let cs = chars_of(line);
    let mut i: usize = 0;
    #[verifier::loop_isolation(true)]
    loop
        invariant
            i <= cs@.len(),
            cs@ == line@,
            forall|k: int| 0 <= k < i ==> is_unicode_space(#[trigger] cs@[k]),
        ensures
            i <= cs@.len(),
            forall|k: int| 0 <= k < i ==> is_unicode_space(#[trigger] cs@[k]),
            i < cs@.len() ==> !is_unicode_space(cs@[i as int]),
        decreases cs@.len() - i,
    {
        if i >= cs.len() {
            break ;
        }
        if !is_unicode_space_exec(cs[i]) {
            break ;
        }
        i = i + 1;
    }
    proof {
        lemma_indent_len_at(line@, i as int);
    }
    i
}

/// The position right after the last occurrence of `sep`, or 0 if `sep`
/// does not occur.
pub open spec fn spec_after_last(s: Seq<char>, sep: char) -> int
    decreases s.len(),
{
    if s.len() == 0 {
        0
    } else if s.last() == sep {
        s.len() as int
    } else {
        spec_after_last(s.drop_last(), sep)
    }
}

proof fn lemma_after_last_at(s: Seq<char>, sep: char, j: int)
    requires
        0 <= j <= s.len(),
        j > 0 ==> s[j - 1] == sep,
        forall|k: int| j <= k < s.len() ==> #[trigger] s[k] != sep,
    ensures
        spec_after_last(s, sep) == j,
    decreases s.len(),
{
    if s.len() == 0 {
    } else if s.last() == sep {
        if j < s.len() {
            assert(s[s.len() - 1] != sep);
            assert(false);
        }
    } else {
        assert(j < s.len());
        let d = s.drop_last();
        assert(forall|k: int| 0 <= k < d.len() ==> #[trigger] d[k] == s[k]);
        lemma_after_last_at(d, sep, j);
    }
}

fn after_last(cs: &Vec<char>, sep: char) -> (r: usize)
    ensures
        r as int == spec_after_last(cs@, sep),
        r <= cs@.len(),
{
    let mut j = cs.len();
    #[verifier::loop_isolation(true)]
    loop
        invariant
            j <= cs@.len(),
            forall|k: int| j <= k < cs@.len() ==> #[trigger] cs@[k] != sep,
        ensures
            j <= cs@.len(),
            forall|k: int| j <= k < cs@.len() ==> #[trigger] cs@[k] != sep,
            j > 0 ==> cs@[j - 1] == sep,
        decreases j,
    {
        if j == 0 {
            break ;
        }
        if cs[j - 1] == sep {
            break ;
        }
        j = j - 1;
    }
    proof {
        lemma_after_last_at(cs@, sep, j as int);
    }
    j
}

/// The extension of a path: what follows the final dot of the final
/// path component; empty when there is no dot, or only a leading one (a
/// hidden file).
pub open spec fn spec_extension(path: Seq<char>) -> Seq<char> {
    let name = path.skip(spec_after_last(path, '/'));
    let d = spec_after_last(name, '.');
    if d <= 1 {
        Seq::empty()
    } else {
        name.skip(d)
    }
}

/// The language a file extension names.
pub open spec fn spec_language_of(ext: Seq<char>) -> Seq<char> {
    if ext == "py"@ {
        "python"@
    } else if ext == "rs"@ {
        "rust"@
    } else if ext == "java"@ {
        "java"@
    } else if ext == "cs"@ {
        "cs"@
    } else if ext == "cpp"@ || ext == "cc"@ || ext == "cxx"@ {
        "cpp"@
    } else if ext == "h"@ || ext == "hpp"@ {
        "c"@
    } else if ext == "ts"@ {
        "typescript"@
    } else if ext == "js"@ {
        "javascript"@
    } else {
        "unknown"@
    }
}

/// Names the language a file is written in, judged by its extension.
pub fn get_language_from_extension(file_path: &str) -> (r: String)
    ensures
        r@ == spec_language_of(spec_extension(file_path@)),
{
    let cs = chars_of(file_path);
    let name_start = after_last(&cs, '/');
    let name = string_from_range(&cs, name_start, cs.len());
    let ncs = chars_of(name.as_str());
    let d = after_last(&ncs, '.');
    proof {
        assert(cs@.subrange(name_start as int, cs@.len() as int) =~= cs@.skip(name_start as int));
        assert(ncs@ == file_path@.skip(spec_after_last(file_path@, '/')));
    }
    let ext = if d <= 1 {
        String::new()
    } else {
        string_from_range(&ncs, d, ncs.len())
    };
    proof {
        if d > 1 {
            assert(ncs@.subrange(d as int, ncs@.len() as int) =~= ncs@.skip(d as int));
        }
        assert(ext@ == spec_extension(file_path@));
    }
    let lang = if ext == String::from_str("py") {
        "python"
    } else if ext == String::from_str("rs") {
        "rust"
    } else if ext == String::from_str("java") {
        "java"
    } else if ext == String::from_str("cs") {
        "cs"
    } else if ext == String::from_str("cpp") || ext == String::from_str("cc") || ext
        == String::from_str("cxx") {
        "cpp"
    } else if ext == String::from_str("h") || ext == String::from_str("hpp") {
        "c"
    } else if ext == String::from_str("ts") {
        "typescript"
    } else if ext == String::from_str("js") {
        "javascript"
    } else {
        "unknown"
    };
    String::from_str(lang)
}

/// The requested class name, as text.
pub open spec fn opt_str_view(o: Option<String>) -> Option<Seq<char>> {
    match o {
        Some(t) => Some(t@),
        None => None,
    }
}

/// Whether a line starts a definition the caller asked for: the pattern
/// captures a name there, and the name is the requested one (or anything,
/// when none was requested).
pub open spec fn starts_match(pattern: Seq<char>, line: Seq<char>, target: Option<Seq<char>>) -> bool {
    regex_capture1(pattern, line) matches Some(n) && (match target {
        Some(t) => n == t,
        None => true,
    })
}

/// Some line of the file starts a definition the caller asked for.
pub open spec fn any_start(
    pattern: Seq<char>,
    lines: Seq<Seq<char>>,
    target: Option<Seq<char>>,
) -> bool {
    exists|k: int| 0 <= k < lines.len() && starts_match(pattern, #[trigger] lines[k], target)
}

/// Structural soundness of one extracted definition: it names the file
/// it came from, carries the expected language, and its line range lies
/// within the file.
pub open spec fn class_match_wf(m: ClassMatch, file: Seq<char>, nlines: int, lang: Seq<char>) -> bool {
    &&& m.file_path@ == file
    &&& m.language@ == lang
    &&& 1 <= m.start_line <= m.end_line <= nlines
}

/// All extracted definitions are structurally sound, and all carry the
/// requested name when one was requested.
pub open spec fn classes_wf(
    ms: Seq<ClassMatch>,
    file: Seq<char>,
    nlines: int,
    lang: Seq<char>,
    target: Option<Seq<char>>,
) -> bool {
    forall|k: int|
        0 <= k < ms.len() ==> class_match_wf(#[trigger] ms[k], file, nlines, lang) && (
        target matches Some(t) ==> ms[k].class_name@ == t)
}

fn matches_target(name: &String, target: &Option<String>) -> (r: bool)
    ensures
        r == (match target {
            Some(t) => name@ == t@,
            None => true,
        }),
{
    match target {
        Some(t) => *name == *t,
        None => true,
    }
}

/// Appends `line` to `def` on a new line.
fn push_def_line(def: &mut String, line: &str)
    ensures
        final(def)@ == old(def)@ + "\n"@ + line@,
{
    def.append("\n");
    def.append(line);
}

/// One line's effect on the open-brace depth, clamped at the bounds:
/// every `{` deepens, every `}` shallows, never below zero.
fn brace_depth_update(line: &str, depth: usize) -> (r: (usize, bool)) {
    let cs = chars_of(line);
    let mut d = depth;
    let mut saw: bool = false;
    let mut i: usize = 0;
    while i < cs.len()
        invariant
            i <= cs@.len(),
        decreases cs@.len() - i,
    {
        let c = cs[i];
        if c == '{' {
            saw = true;
            if d < usize::MAX {
                d = d + 1;
            }
        } else if c == '}' {
            if d > 0 {
                d = d - 1;
            }
        }
        i = i + 1;
    }
    (d, saw)
}

/// Whether a line contains an opening brace.
fn contains_open_brace(line: &str) -> (r: bool)
    ensures
        r == (exists|k: int| 0 <= k < line@.len() && line@[k] == '{'),
{
    let cs = chars_of(line);
    let mut i: usize = 0;
    while i < cs.len()
        invariant
            i <= cs@.len(),
            cs@ == line@,
            forall|k: int| 0 <= k < i ==> cs@[k] != '{',
        decreases cs@.len() - i,
    {
        if cs[i] == '{' {
            return true;
        }
        i = i + 1;
    }
    false
}

/// Extracts brace-delimited definitions: finds each line where the
/// pattern captures a name, then takes lines up to the matching closing
/// brace as the definition block.
#[verifier::loop_isolation(false)]
fn extract_brace_classes(
    lines: &Vec<String>,
    file_path: &str,
    target_class: &Option<String>,
    pattern: &str,
    language: &str,
) -> (r: Vec<ClassMatch>)
    ensures
        classes_wf(
            r@,
            file_path@,
            lines@.len() as int,
            language@,
            opt_str_view(*target_class),
        ),
        r@.len() > 0 <==> any_start(pattern@, lines.deep_view(), opt_str_view(*target_class)),
{
    let ghost dv = lines.deep_view();
    let ghost tview = opt_str_view(*target_class);
    let mut r: Vec<ClassMatch> = Vec::new();
    let mut i: usize = 0;
    while i < lines.len()
        invariant
            i <= lines@.len(),
            dv.len() == lines@.len(),
            classes_wf(
                r@,
                file_path@,
                lines@.len() as int,
                language@,
                opt_str_view(*target_class),
            ),
            r@.len() == 0 ==> forall|k: int|
                0 <= k < i ==> !starts_match(pattern@, #[trigger] dv[k], tview),
            r@.len() > 0 ==> any_start(pattern@, dv, tview),
        decreases lines@.len() - i,
    {
        let ghost det = i as int;
        proof {
            assert(dv[det] == lines@[det]@);
        }
        match regex_capture1_exec(pattern, lines[i].as_str()) {
            None => {
                proof {
                    assert(!starts_match(pattern@, dv[det], tview));
                }
                i = i + 1;
            },
            Some(name) => {
                if !matches_target(&name, target_class) {
                    proof {
                        assert(!starts_match(pattern@, dv[det], tview));
                    }
                    i = i + 1;
                    continue ;
                }
                proof {
                    assert(starts_match(pattern@, dv[det], tview));
                    assert(any_start(pattern@, dv, tview));
                }
                let start_line = i + 1;
                let mut def = lines[i].clone();
                // move to the line holding the opening brace
                while i < lines.len() && !contains_open_brace(lines[i].as_str())
                    invariant
                        start_line - 1 <= i as int,
                        i <= lines@.len(),
                    decreases lines@.len() - i,
                {
                    i = i + 1;
                    if i < lines.len() {
                        push_def_line(&mut def, lines[i].as_str());
                    }
                }
                if i < lines.len() {
                    let (mut depth, _) = brace_depth_update(lines[i].as_str(), 0);
                    i = i + 1;
                    while i < lines.len() && depth > 0
                        invariant
                            start_line <= i,
                            i <= lines@.len(),
                        decreases lines@.len() - i,
                    {
                        push_def_line(&mut def, lines[i].as_str());
                        let (d2, _) = brace_depth_update(lines[i].as_str(), depth);
                        depth = d2;
                        i = i + 1;
                    }
                }
                let end_line = if i < start_line {
                    start_line
                } else {
                    i
                };
                let m = ClassMatch {
                    file_path: String::from_str(file_path),
                    class_name: name,
                    start_line,
                    end_line,
                    full_definition: def,
                    language: String::from_str(language),
                };
                r.push(m);
            },
        }
    }
    r
}

/// Extracts Python class definitions: a class line starts a block, and
/// the block runs until the next nonblank line indented no deeper than
/// the class line.
#[verifier::loop_isolation(false)]
pub fn extract_python_classes(
    lines: &Vec<String>,
    file_path: &str,
    target_class: &Option<String>,
) -> (r: Vec<ClassMatch>)
    ensures
        classes_wf(
            r@,
            file_path@,
            lines@.len() as int,
            "python"@,
            opt_str_view(*target_class),
        ),
        r@.len() > 0 <==> any_start(
            "^class\\s+(\\w+).*:"@,
            lines.deep_view(),
            opt_str_view(*target_class),
        ),
{
    let ghost dv = lines.deep_view();
    let ghost tview = opt_str_view(*target_class);
    let mut r: Vec<ClassMatch> = Vec::new();
    let mut i: usize = 0;
    while i < lines.len()
        invariant
            i <= lines@.len(),
            dv.len() == lines@.len(),
            classes_wf(
                r@,
                file_path@,
                lines@.len() as int,
                "python"@,
                opt_str_view(*target_class),
            ),
            r@.len() == 0 ==> forall|k: int|
                0 <= k < i ==> !starts_match("^class\\s+(\\w+).*:"@, #[trigger] dv[k], tview),
            r@.len() > 0 ==> any_start("^class\\s+(\\w+).*:"@, dv, tview),
        decreases lines@.len() - i,
    {
        let ghost det = i as int;
        proof {
            assert(dv[det] == lines@[det]@);
        }
        match regex_capture1_exec("^class\\s+(\\w+).*:", lines[i].as_str()) {
            None => {
                proof {
                    assert(!starts_match("^class\\s+(\\w+).*:"@, dv[det], tview));
                }
                i = i + 1;
            },
            Some(name) => {
                if !matches_target(&name, target_class) {
                    proof {
                        assert(!starts_match("^class\\s+(\\w+).*:"@, dv[det], tview));
                    }
                    i = i + 1;
                    continue ;
                }
                proof {
                    assert(starts_match("^class\\s+(\\w+).*:"@, dv[det], tview));
                    assert(any_start("^class\\s+(\\w+).*:"@, dv, tview));
                }
                let start_line = i + 1;
                let mut end_line = i + 1;
                let mut def = lines[i].clone();
                let base_indent = get_base_indent(lines[i].as_str());
                i = i + 1;
                while i < lines.len()
                    invariant
                        start_line <= i,
                        i <= lines@.len(),
                        start_line <= end_line <= lines@.len(),
                        start_line <= lines@.len(),
                    decreases lines@.len() - i,
                {
                    let line = &lines[i];
                    let trimmed = crate::server::trim_line(line.as_str());
                    if trimmed.as_str().unicode_len() == 0 {
                        push_def_line(&mut def, line.as_str());
                        i = i + 1;
                        continue ;
                    }
                    let current_indent = get_base_indent(line.as_str());
                    if current_indent <= base_indent {
                        break ;
                    }
                    push_def_line(&mut def, line.as_str());
                    end_line = i + 1;
                    i = i + 1;
                }
                let m = ClassMatch {
                    file_path: String::from_str(file_path),
                    class_name: name,
                    start_line,
                    end_line,
                    full_definition: def,
                    language: String::from_str("python"),
                };
                r.push(m);
            },
        }
    }
    r
}

/// Extracts Rust struct definitions by brace matching.
pub fn extract_rust_structs(
    lines: &Vec<String>,
    file_path: &str,
    target_class: &Option<String>,
) -> (r: Vec<ClassMatch>)
    ensures
        classes_wf(
            r@,
            file_path@,
            lines@.len() as int,
            "rust"@,
            opt_str_view(*target_class),
        ),
        r@.len() > 0 <==> any_start(
            "^\\s*(?:pub\\s+)?struct\\s+(\\w+)"@,
            lines.deep_view(),
            opt_str_view(*target_class),
        ),
{
    extract_brace_classes(lines, file_path, target_class, "^\\s*(?:pub\\s+)?struct\\s+(\\w+)", "rust")
}

/// Extracts Java and C# class definitions by brace matching.
pub fn extract_java_cs_classes(
    lines: &Vec<String>,
    file_path: &str,
    target_class: &Option<String>,
    language: &str,
) -> (r: Vec<ClassMatch>)
    ensures
        classes_wf(
            r@,
            file_path@,
            lines@.len() as int,
            language@,
            opt_str_view(*target_class),
        ),
        r@.len() > 0 <==> any_start(
            "^\\s*(?:public\\s+|private\\s+|protected\\s+)?class\\s+(\\w+)"@,
            lines.deep_view(),
            opt_str_view(*target_class),
        ),
{
    extract_brace_classes(
        lines,
        file_path,
        target_class,
        "^\\s*(?:public\\s+|private\\s+|protected\\s+)?class\\s+(\\w+)",
        language,
    )
}

/// Extracts C++ class definitions by brace matching.
pub fn extract_cpp_classes(
    lines: &Vec<String>,
    file_path: &str,
    target_class: &Option<String>,
) -> (r: Vec<ClassMatch>)
    ensures
        classes_wf(
            r@,
            file_path@,
            lines@.len() as int,
            "cpp"@,
            opt_str_view(*target_class),
        ),
        r@.len() > 0 <==> any_start(
            "^\\s*class\\s+(\\w+)"@,
            lines.deep_view(),
            opt_str_view(*target_class),
        ),
{
    extract_brace_classes(lines, file_path, target_class, "^\\s*class\\s+(\\w+)", "cpp")
}

/// Extracts TypeScript and JavaScript class definitions by brace
/// matching.
pub fn extract_ts_js_classes(
    lines: &Vec<String>,
    file_path: &str,
    target_class: &Option<String>,
    language: &str,
) -> (r: Vec<ClassMatch>)
    ensures
        classes_wf(
            r@,
            file_path@,
            lines@.len() as int,
            language@,
            opt_str_view(*target_class),
        ),
        r@.len() > 0 <==> any_start(
            "^\\s*(?:export\\s+)?class\\s+(\\w+)"@,
            lines.deep_view(),
            opt_str_view(*target_class),
        ),
{
    extract_brace_classes(
        lines,
        file_path,
        target_class,
        "^\\s*(?:export\\s+)?class\\s+(\\w+)",
        language,
    )
}

/// The label the extractor writes for a language: C headers are
/// extracted by the C++ extractor and labelled as such.
pub open spec fn spec_class_label(lang: Seq<char>) -> Seq<char> {
    if lang == "c"@ {
        "cpp"@
    } else {
        lang
    }
}

/// Extracts the definitions of one file, dispatching on the language its
/// extension names. Files of unknown languages contribute nothing.
pub fn extract_class_definitions(
    file_path: &str,
    lines: &Vec<String>,
    target_class: &Option<String>,
) -> (r: Vec<ClassMatch>)
    ensures
        classes_wf(
            r@,
            file_path@,
            lines@.len() as int,
            spec_class_label(spec_language_of(spec_extension(file_path@))),
            opt_str_view(*target_class),
        ),
{
    let language = get_language_from_extension(file_path);
    proof {
        reveal_strlit("python");
        reveal_strlit("rust");
        reveal_strlit("java");
        reveal_strlit("cs");
        reveal_strlit("cpp");
        reveal_strlit("c");
        reveal_strlit("typescript");
        reveal_strlit("javascript");
        reveal_strlit("unknown");
    }
    let ghost label = spec_class_label(spec_language_of(spec_extension(file_path@)));
    if language == String::from_str("python") {
        proof {
            assert(language@ == "python"@);
            assert(label == "python"@);
        }
        extract_python_classes(lines, file_path, target_class)
    } else if language == String::from_str("rust") {
        proof {
            assert(label == "rust"@);
        }
        extract_rust_structs(lines, file_path, target_class)
    } else if language == String::from_str("java") || language == String::from_str("cs") {
        proof {
            assert(label == language@);
        }
        extract_java_cs_classes(lines, file_path, target_class, language.as_str())
    } else if language == String::from_str("cpp") || language == String::from_str("c") {
        proof {
            assert(label == "cpp"@);
        }
        extract_cpp_classes(lines, file_path, target_class)
    } else if language == String::from_str("typescript") || language == String::from_str(
        "javascript",
    ) {
        proof {
            assert(label == language@);
        }
        extract_ts_js_classes(lines, file_path, target_class, language.as_str())
    } else {
        let r: Vec<ClassMatch> = Vec::new();
        proof {
            assert(r@.len() == 0);
            assert(classes_wf(
                r@,
                file_path@,
                lines@.len() as int,
                label,
                opt_str_view(*target_class),
            ));
        }
        r
    }
}

} // verus!
