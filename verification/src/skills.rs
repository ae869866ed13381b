//! Skills: instructions in files, where they are found, and what is wrong with
//! them.

use vstd::prelude::*;

use crate::front_matter::{
    field_of, field_result, flag_of, front_fits, front_parts, front_value, read_field, read_flag,
    read_front, split_front, yaml_result, Yaml, YamlView,
};
use crate::harness_types::{FileError, FileErrorCode, FileInfo, FileKind, Skill};
use crate::prompt_templates::{by_name, sort_by_name};
use crate::text::{
    begins_with, char_utf8_len, char_width, chars_of, concat2, concat3, concat5, contains_text,
    decimal, decimal_text, find_from, finishes_with, first_match, has_prefix, has_suffix, is_digit,
    lemma_first_match, occurs_in, replace_char, replace_char_text, same_text, split, split_text,
    substring, text_of_option, texts, trim, trim_end, trim_end_of, trim_start, trim_start_of,
    trim_text,
};

verus! {

/// How many characters the name of a skill may have.
pub const MAX_NAME_LENGTH: usize = 64;

/// How many characters the description of a skill may have.
pub const MAX_DESCRIPTION_LENGTH: usize = 1024;

/// The files that say what is ignored.
pub const IGNORE_FILE_NAMES: [&'static str; 3] = [".gitignore", ".ignore", ".fdignore"];

/// Why a skill, or something on the way to it, could not be loaded.
#[derive(Clone, Copy, PartialEq, Eq, Structural, Debug)]
pub enum SkillDiagnosticCode {
    FileInfoFailed,
    ListFailed,
    ReadFailed,
    ParseFailed,
    InvalidMetadata,
}

/// What is wrong with a skill, or could not be loaded.
pub struct SkillDiagnostic {
    pub code: SkillDiagnosticCode,
    pub message: String,
    pub path: String,
}

/// Skills, and what is wrong with them.
pub struct LoadedSkills {
    pub skills: Vec<Skill>,
    pub diagnostics: Vec<SkillDiagnostic>,
}

// ---------------------------------------------------------------------------
// Paths
// ---------------------------------------------------------------------------

/// Whether a character separates the parts of a path.
pub open spec fn is_separator(c: char) -> bool {
    c == '/' || c == '\\'
}

/// The position of the last separator in a path.
pub open spec fn last_separator(path: Seq<char>) -> Option<int>
    decreases path.len(),
{
    if path.len() == 0 {
        None
    } else if is_separator(path.last()) {
        Some(path.len() - 1)
    } else {
        last_separator(path.drop_last())
    }
}

/// A path without separators at its end.
pub open spec fn without_trailing(path: Seq<char>) -> Seq<char> {
    trim_end(path, |c: char| is_separator(c))
}

fn find_last_separator(path: &str) -> (r: Option<usize>)
    ensures
        match r {
            Some(i) => last_separator(path@) == Some(i as int) && i < path@.len(),
            None => last_separator(path@) is None,
        },
{
    let chars: Vec<char> = chars_of(path);
    let mut i: usize = chars.len();
    proof {
        assert(chars@.take(chars@.len() as int) =~= chars@);
    }
    while i > 0
        invariant
            i <= chars@.len(),
            chars@ == path@,
            last_separator(path@) == last_separator(path@.take(i as int)),
        decreases i,
    {
        proof {
            assert(path@.take(i as int).drop_last() =~= path@.take(i - 1));
            assert(path@.take(i as int).last() == path@[i - 1]);
        }
        if chars[i - 1] == '/' || chars[i - 1] == '\\' {
            return Some(i - 1);
        }
        i = i - 1;
    }
    None
}

fn drop_trailing(path: &str) -> (r: String)
    ensures
        r@ == without_trailing(path@),
{
    let chars: Vec<char> = chars_of(path);
    let ghost sep = |c: char| is_separator(c);
    let mut end: usize = chars.len();
    proof {
        assert(chars@.take(chars@.len() as int) =~= chars@);
    }
    while end > 0 && (chars[end - 1] == '/' || chars[end - 1] == '\\')
        invariant
            end <= chars@.len(),
            chars@ == path@,
            sep == (|c: char| is_separator(c)),
            trim_end(path@.take(end as int), sep) == trim_end(path@, sep),
        decreases end,
    {
        proof {
            assert(path@.take(end as int).drop_last() =~= path@.take(end - 1));
            assert(sep(path@.take(end as int).last()));
        }
        end = end - 1;
    }
    proof {
        let kept = path@.take(end as int);
        if end > 0 {
            assert(kept.last() == path@[end - 1]);
            assert(!sep(kept.last()));
        }
        assert(path@.subrange(0, end as int) =~= kept);
    }
    substring(path, 0, end)
}

/// The directory of a path.
pub open spec fn directory_of(path: Seq<char>) -> Seq<char> {
    let clean = without_trailing(path);
    let at = match last_separator(clean) {
        Some(i) => i,
        None => 0,
    };
    if at == 2 && clean[1] == ':' && char_width(clean[0]) == 1 {
        clean.take(3)
    } else if at == 0 {
        "/"@
    } else {
        clean.take(at)
    }
}

/// The directory of a path.
pub fn dirname_env_path(path: &str) -> (r: String)
    ensures
        r@ == directory_of(path@),
{
    let clean: String = drop_trailing(path);
    let at: usize = match find_last_separator(clean.as_str()) {
        Some(i) => i,
        None => 0,
    };
    if at == 2 && clean.as_str().get_char(1) == ':' && char_utf8_len(clean.as_str().get_char(0))
        == 1 {
        proof {
            assert(clean@.subrange(0, 3) =~= clean@.take(3));
        }
        return substring(clean.as_str(), 0, 3);
    }
    if at == 0 {
        return "/".to_string();
    }
    proof {
        assert(clean@.subrange(0, at as int) =~= clean@.take(at as int));
    }
    substring(clean.as_str(), 0, at)
}

/// A path with forward slashes and none at its end.
pub open spec fn slashed(path: Seq<char>) -> Seq<char> {
    trim_end(replace_char(path, '\\', "/"@), |c: char| c == '/')
}

/// A path as seen from a root.
pub open spec fn relative_path(root: Seq<char>, path: Seq<char>) -> Seq<char> {
    let r = slashed(root);
    let p = slashed(path);
    if p == r {
        Seq::empty()
    } else if begins_with(p, r + "/"@) {
        p.skip(r.len() as int + 1)
    } else {
        trim_start(p, |c: char| c == '/')
    }
}

fn make_slashed(path: &str) -> (r: String)
    ensures
        r@ == slashed(path@),
{
    let forward: String = replace_char_text(path, '\\', "/");
    let mut set: Vec<char> = Vec::new();
    set.push('/');
    let r: String = trim_end_of(forward.as_str(), set.as_slice());
    proof {
        let p = |c: char| set@.contains(c);
        let q = |c: char| c == '/';
        assert(set@[0] == '/');
        assert forall|c: char| #[trigger] p(c) == #[trigger] q(c) by {
            if q(c) {
                assert(set@.contains(set@[0]));
            }
        }
        crate::tools::edit_diff::lemma_trim_end_agrees(forward@, p, q);
    }
    r
}

/// A path as seen from a root.
pub fn relative_env_path(root: &str, path: &str) -> (r: String)
    ensures
        r@ == relative_path(root@, path@),
{
    let clean_root: String = make_slashed(root);
    let clean_path: String = make_slashed(path);
    if same_text(clean_path.as_str(), clean_root.as_str()) {
        let none: String = String::new();
        proof {
            assert(none@ =~= Seq::<char>::empty());
        }
        return none;
    }
    let front: String = concat2(clean_root.as_str(), "/");
    proof {
        reveal_strlit("/");
    }
    if has_prefix(clean_path.as_str(), front.as_str()) {
        let n: usize = clean_path.as_str().unicode_len();
        let from: usize = front.as_str().unicode_len();
        proof {
            assert(clean_path@.subrange(from as int, n as int) =~= clean_path@.skip(
                clean_root@.len() as int + 1,
            ));
        }
        substring(clean_path.as_str(), from, n)
    } else {
        trim_start_of(clean_path.as_str(), '/')
    }
}

// ---------------------------------------------------------------------------
// Ignore patterns
// ---------------------------------------------------------------------------

/// The pattern of a line of an ignore file, for a directory below the root.
/// Empty lines and comments hold none.
pub open spec fn line_pattern(line: Seq<char>, prefix: Seq<char>) -> Option<Seq<char>> {
    let trimmed = trim(line);
    if trimmed.len() == 0 || trimmed[0] == '#' {
        None
    } else {
        let negated = begins_with(line, "!"@);
        let rest = if negated {
            line.skip(1)
        } else if begins_with(line, "\\!"@) {
            line.skip(2)
        } else {
            line
        };
        let pattern = if begins_with(rest, "/"@) {
            rest.skip(1)
        } else {
            rest
        };
        Some(
            if negated {
                "!"@ + (prefix + pattern)
            } else {
                prefix + pattern
            },
        )
    }
}

fn skip_chars(text: &str, n: usize) -> (r: String)
    requires
        n <= text@.len(),
    ensures
        r@ == text@.skip(n as int),
{
    let size: usize = text.unicode_len();
    proof {
        assert(text@.subrange(n as int, size as int) =~= text@.skip(n as int));
    }
    substring(text, n, size)
}

fn prefix_ignore_pattern(line: &str, prefix: &str) -> (r: Option<String>)
    ensures
        text_of_option(r) == line_pattern(line@, prefix@),
{
    proof {
        reveal_strlit("!");
        reveal_strlit("\\!");
        reveal_strlit("/");
    }
    let trimmed: String = trim_text(line);
    if trimmed.as_str().unicode_len() == 0 || trimmed.as_str().get_char(0) == '#' {
        return None;
    }
    let negated: bool = has_prefix(line, "!");
    let rest: String = if negated {
        skip_chars(line, 1)
    } else if has_prefix(line, "\\!") {
        skip_chars(line, 2)
    } else {
        line.to_string()
    };
    let pattern: String = if has_prefix(rest.as_str(), "/") {
        skip_chars(rest.as_str(), 1)
    } else {
        rest
    };
    let prefixed: String = concat2(prefix, pattern.as_str());
    if negated {
        Some(concat2("!", prefixed.as_str()))
    } else {
        Some(prefixed)
    }
}

/// A line without a carriage return at its end.
pub open spec fn without_return(line: Seq<char>) -> Seq<char> {
    if line.len() > 0 && line.last() == '\r' {
        line.drop_last()
    } else {
        line
    }
}

/// The patterns of lines.
pub open spec fn lines_patterns(lines: Seq<Seq<char>>, prefix: Seq<char>) -> Seq<Seq<char>>
    decreases lines.len(),
{
    if lines.len() == 0 {
        Seq::empty()
    } else {
        let before = lines_patterns(lines.drop_last(), prefix);
        match line_pattern(without_return(lines.last()), prefix) {
            Some(pattern) => before.push(pattern),
            None => before,
        }
    }
}

/// The prefix of the patterns of a directory.
pub open spec fn pattern_prefix(root: Seq<char>, dir: Seq<char>) -> Seq<char> {
    let relative = relative_path(root, dir);
    if relative.len() == 0 {
        Seq::empty()
    } else {
        relative + "/"@
    }
}

/// The patterns of an ignore file in a directory below a root.
pub fn ignore_patterns(content: &str, root_dir: &str, dir: &str) -> (r: Vec<String>)
    ensures
        texts(r@) == lines_patterns(split(content@, '\n'), pattern_prefix(root_dir@, dir@)),
{
    let relative: String = relative_env_path(root_dir, dir);
    let prefix: String = if relative.as_str().unicode_len() == 0 {
        relative
    } else {
        concat2(relative.as_str(), "/")
    };
    proof {
        if relative@.len() == 0 {
            assert(relative@ =~= Seq::<char>::empty());
        }
    }
    let lines: Vec<String> = split_text(content, '\n');
    let ghost all = texts(lines@);
    let mut out: Vec<String> = Vec::new();
    let mut i: usize = 0;
    proof {
        assert(all.take(0) =~= Seq::<Seq<char>>::empty());
        assert(texts(out@) =~= Seq::<Seq<char>>::empty());
    }
    while i < lines.len()
        invariant
            i <= lines@.len(),
            all == texts(lines@),
            texts(out@) == lines_patterns(all.take(i as int), prefix@),
        decreases lines@.len() - i,
    {
        let ghost before = out@;
        proof {
            assert(all.take(i + 1).drop_last() =~= all.take(i as int));
            assert(all.take(i + 1).last() == lines@[i as int]@);
        }
        let n: usize = lines[i].as_str().unicode_len();
        let line: String = if n > 0 && lines[i].as_str().get_char(n - 1) == '\r' {
            proof {
                assert(lines@[i as int]@.subrange(0, n - 1) =~= lines@[i as int]@.drop_last());
            }
            substring(lines[i].as_str(), 0, n - 1)
        } else {
            lines[i].clone()
        };
        match prefix_ignore_pattern(line.as_str(), prefix.as_str()) {
            Some(pattern) => {
                out.push(pattern);
                proof {
                    assert(texts(out@) =~= texts(before).push(pattern@));
                }
            },
            None => {},
        }
        i = i + 1;
    }
    proof {
        assert(all.take(all.len() as int) =~= all);
    }
    out
}

/// A pattern in parts.
pub struct IgnorePattern {
    pub negated: bool,
    pub directory_only: bool,
    pub segments: Vec<String>,
}

/// The mathematical value of an [`IgnorePattern`].
pub struct PatternView {
    pub negated: bool,
    pub directory_only: bool,
    pub segments: Seq<Seq<char>>,
}

impl View for IgnorePattern {
    type V = PatternView;

    open spec fn view(&self) -> PatternView {
        PatternView {
            negated: self.negated,
            directory_only: self.directory_only,
            segments: texts(self.segments@),
        }
    }
}

/// The parts of a pattern, if it holds anything.
pub open spec fn compiled(pattern: Seq<char>) -> Option<PatternView> {
    let negated = begins_with(pattern, "!"@);
    let rest = if negated {
        pattern.skip(1)
    } else {
        pattern
    };
    let trimmed = trim_end(rest, |c: char| c == '/');
    if trimmed.len() == 0 {
        None
    } else {
        Some(
            PatternView {
                negated,
                directory_only: finishes_with(rest, "/"@),
                segments: split(trimmed, '/'),
            },
        )
    }
}

fn compile_pattern(pattern: &str) -> (r: Option<IgnorePattern>)
    ensures
        match r {
            Some(p) => compiled(pattern@) == Some(p@),
            None => compiled(pattern@) is None,
        },
{
    proof {
        reveal_strlit("!");
    }
    let negated: bool = has_prefix(pattern, "!");
    let rest: String = if negated {
        skip_chars(pattern, 1)
    } else {
        pattern.to_string()
    };
    let directory_only: bool = has_suffix(rest.as_str(), "/");
    let mut set: Vec<char> = Vec::new();
    set.push('/');
    let trimmed: String = trim_end_of(rest.as_str(), set.as_slice());
    proof {
        let p = |c: char| set@.contains(c);
        let q = |c: char| c == '/';
        assert(set@[0] == '/');
        assert forall|c: char| #[trigger] p(c) == #[trigger] q(c) by {
            if q(c) {
                assert(set@.contains(set@[0]));
            }
        }
        crate::tools::edit_diff::lemma_trim_end_agrees(rest@, p, q);
    }
    if trimmed.as_str().unicode_len() == 0 {
        return None;
    }
    Some(IgnorePattern { negated, directory_only, segments: split_text(trimmed.as_str(), '/') })
}

/// Whether the parts of a pattern with stars stand in a text one after the
/// other, from a part and a position on. The first part stands at the start.
pub open spec fn parts_in_order(
    parts: Seq<Seq<char>>,
    i: int,
    text: Seq<char>,
    position: int,
) -> bool
    decreases parts.len() - i,
{
    if i < 0 || i >= parts.len() {
        true
    } else if parts[i].len() == 0 {
        parts_in_order(parts, i + 1, text, position)
    } else {
        match first_match(text, parts[i], position) {
            Some(found) => (i > 0 || found == 0) && parts_in_order(
                parts,
                i + 1,
                text,
                found + parts[i].len(),
            ),
            None => false,
        }
    }
}

/// Whether a text matches a pattern in which a star stands for anything.
pub open spec fn star_match(pattern: Seq<char>, text: Seq<char>) -> bool {
    let parts = split(pattern, '*');
    &&& parts.len() > 1
    &&& parts_in_order(parts, 0, text, 0)
    &&& parts.last().len() > 0 ==> finishes_with(text, parts.last())
}

fn wildcard_match(pattern: &str, text: &str) -> (r: bool)
    ensures
        r == star_match(pattern@, text@),
{
    let parts: Vec<String> = split_text(pattern, '*');
    let ghost views = split(pattern@, '*');
    let n: usize = parts.len();
    proof {
        assert(n == views.len());
    }
    if n <= 1 {
        return false;
    }
    let chars: Vec<char> = chars_of(text);
    let size: usize = chars.len();
    let mut position: usize = 0;
    let mut i: usize = 0;
    while i < n
        invariant
            i <= n == parts@.len() == views.len(),
            texts(parts@) == views,
            chars@ == text@,
            size == chars@.len(),
            position <= chars@.len(),
            n > 1,
            views == split(pattern@, '*'),
            parts_in_order(views, 0, text@, 0) == parts_in_order(
                views,
                i as int,
                text@,
                position as int,
            ),
        decreases n - i,
    {
        let part: Vec<char> = chars_of(parts[i].as_str());
        proof {
            assert(views[i as int] == parts@[i as int]@);
            lemma_first_match(text@, part@, position as int);
        }
        if part.len() > 0 {
            match find_from(chars.as_slice(), part.as_slice(), position) {
                Some(found) => {
                    if i == 0 && found != 0 {
                        return false;
                    }
                    position = found + part.len();
                },
                None => {
                    return false;
                },
            }
        }
        i = i + 1;
    }
    proof {
        assert(views[n - 1] == parts@[n - 1]@);
    }
    if parts[n - 1].as_str().unicode_len() > 0 && !has_suffix(text, parts[n - 1].as_str()) {
        return false;
    }
    true
}

/// Whether a path, or one of the directories it lies in, matches a pattern.
pub open spec fn segments_match(pattern: Seq<Seq<char>>, path: Seq<Seq<char>>) -> bool
    decreases pattern.len(),
{
    if pattern.len() == 0 {
        true
    } else if pattern[0] == "**"@ {
        exists|k: int|
            0 <= k <= path.len() && segments_match(pattern.skip(1), #[trigger] path.skip(k))
    } else {
        &&& path.len() > 0
        &&& (star_match(pattern[0], path[0]) || path[0] == pattern[0])
        &&& segments_match(pattern.skip(1), path.skip(1))
    }
}

fn match_segments(pattern: &Vec<String>, i: usize, path: &Vec<String>, j: usize) -> (r: bool)
    requires
        i <= pattern@.len(),
        j <= path@.len(),
    ensures
        r == segments_match(texts(pattern@).skip(i as int), texts(path@).skip(j as int)),
    decreases pattern@.len() - i,
{
    let ghost rest = texts(pattern@).skip(i as int);
    let ghost left = texts(path@).skip(j as int);
    if i >= pattern.len() {
        return true;
    }
    proof {
        assert(rest[0] == pattern@[i as int]@);
        assert(rest.skip(1) =~= texts(pattern@).skip(i + 1));
    }
    if same_text(pattern[i].as_str(), "**") {
        let mut k: usize = j;
        let n: usize = path.len();
        let size: usize = pattern.len();
        while k <= n
            invariant
                j <= k <= n + 1,
                n == path@.len(),
                size == pattern@.len(),
                i < size,
                rest == texts(pattern@).skip(i as int),
                left == texts(path@).skip(j as int),
                rest.len() > 0,
                rest[0] == "**"@,
                rest.skip(1) == texts(pattern@).skip(i + 1),
                forall|m: int|
                    0 <= m < k - j ==> !segments_match(rest.skip(1), #[trigger] left.skip(m)),
            decreases n + 1 - k,
        {
            proof {
                assert(left.skip(k - j) =~= texts(path@).skip(k as int));
            }
            if match_segments(pattern, i + 1, path, k) {
                proof {
                    assert(segments_match(rest.skip(1), left.skip(k - j)));
                }
                return true;
            }
            if k == n {
                proof {
                    assert forall|m: int| 0 <= m <= left.len() implies !segments_match(
                        rest.skip(1),
                        #[trigger] left.skip(m),
                    ) by {}
                }
                return false;
            }
            k = k + 1;
        }
        return false;
    }
    if j >= path.len() {
        return false;
    }
    proof {
        assert(left[0] == path@[j as int]@);
        assert(left.skip(1) =~= texts(path@).skip(j + 1));
    }
    (wildcard_match(pattern[i].as_str(), path[j].as_str()) || same_text(
        path[j].as_str(),
        pattern[i].as_str(),
    )) && match_segments(pattern, i + 1, path, j + 1)
}

/// Patterns of paths that are ignored.
pub struct IgnoreMatcher {
    pub patterns: Vec<IgnorePattern>,
}

/// The mathematical values of patterns.
pub open spec fn pattern_views(s: Seq<IgnorePattern>) -> Seq<PatternView> {
    Seq::new(s.len(), |i: int| s[i]@)
}

/// The patterns of texts that hold any.
pub open spec fn all_compiled(all: Seq<Seq<char>>) -> Seq<PatternView>
    decreases all.len(),
{
    if all.len() == 0 {
        Seq::empty()
    } else {
        let before = all_compiled(all.drop_last());
        match compiled(all.last()) {
            Some(p) => before.push(p),
            None => before,
        }
    }
}

/// Whether patterns ignore a path: the last that matches says so.
pub open spec fn is_ignored(patterns: Seq<PatternView>, path: Seq<char>, is_dir: bool) -> bool
    decreases patterns.len(),
{
    if patterns.len() == 0 {
        false
    } else {
        let p = patterns.last();
        if (is_dir || !p.directory_only) && segments_match(p.segments, split(path, '/')) {
            !p.negated
        } else {
            is_ignored(patterns.drop_last(), path, is_dir)
        }
    }
}

impl IgnoreMatcher {
    /// Nothing is ignored.
    pub fn new() -> (r: Self)
        ensures
            r.patterns@.len() == 0,
    {
        IgnoreMatcher { patterns: Vec::new() }
    }

    /// Adds patterns behind those that are there.
    pub fn add(&mut self, patterns: &Vec<String>)
        ensures
            pattern_views(final(self).patterns@) == pattern_views(old(self).patterns@)
                + all_compiled(texts(patterns@)),
    {
        let ghost start = pattern_views(self.patterns@);
        let ghost all = texts(patterns@);
        let mut i: usize = 0;
        proof {
            assert(all.take(0) =~= Seq::<Seq<char>>::empty());
            assert(start + all_compiled(all.take(0)) =~= start);
        }
        while i < patterns.len()
            invariant
                i <= patterns@.len(),
                all == texts(patterns@),
                pattern_views(self.patterns@) == start + all_compiled(all.take(i as int)),
            decreases patterns@.len() - i,
        {
            let ghost before = self.patterns@;
            proof {
                assert(all.take(i + 1).drop_last() =~= all.take(i as int));
                assert(all.take(i + 1).last() == patterns@[i as int]@);
            }
            match compile_pattern(patterns[i].as_str()) {
                Some(p) => {
                    self.patterns.push(p);
                    proof {
                        assert(pattern_views(self.patterns@) =~= pattern_views(before).push(p@));
                        assert(pattern_views(self.patterns@) =~= start + all_compiled(
                            all.take(i + 1),
                        ));
                    }
                },
                None => {},
            }
            i = i + 1;
        }
        proof {
            assert(all.take(all.len() as int) =~= all);
        }
    }

    /// Whether a path is ignored: the last pattern that matches says so.
    pub fn ignores(&self, path: &str, is_dir: bool) -> (r: bool)
        ensures
            r == is_ignored(pattern_views(self.patterns@), path@, is_dir),
    {
        let segments: Vec<String> = split_text(path, '/');
        let ghost views = pattern_views(self.patterns@);
        let mut ignored: bool = false;
        let mut i: usize = 0;
        proof {
            assert(views.take(0) =~= Seq::<PatternView>::empty());
        }
        while i < self.patterns.len()
            invariant
                i <= self.patterns@.len(),
                views == pattern_views(self.patterns@),
                texts(segments@) == split(path@, '/'),
                ignored == is_ignored(views.take(i as int), path@, is_dir),
            decreases self.patterns@.len() - i,
        {
            let p: &IgnorePattern = &self.patterns[i];
            proof {
                assert(views.take(i + 1).drop_last() =~= views.take(i as int));
                assert(views.take(i + 1).last() == self.patterns@[i as int]@);
                assert(texts(p.segments@).skip(0) =~= texts(p.segments@));
                assert(texts(segments@).skip(0) =~= texts(segments@));
            }
            if (is_dir || !p.directory_only) && match_segments(&p.segments, 0, &segments, 0) {
                ignored = !p.negated;
            }
            i = i + 1;
        }
        proof {
            assert(views.take(views.len() as int) =~= views);
        }
        ignored
    }
}

/// A negated pattern at the end brings back what it matches.
pub proof fn law_negation_brings_back(
    patterns: Seq<PatternView>,
    p: PatternView,
    path: Seq<char>,
    is_dir: bool,
)
    requires
        p.negated,
        is_dir || !p.directory_only,
        segments_match(p.segments, split(path, '/')),
    ensures
        !is_ignored(patterns.push(p), path, is_dir),
{
    assert(patterns.push(p).drop_last() =~= patterns);
}

/// A pattern that does not match leaves everything as it is.
pub proof fn law_other_patterns_do_not_matter(
    patterns: Seq<PatternView>,
    p: PatternView,
    path: Seq<char>,
    is_dir: bool,
)
    requires
        !segments_match(p.segments, split(path, '/')) || (p.directory_only && !is_dir),
    ensures
        is_ignored(patterns.push(p), path, is_dir) == is_ignored(patterns, path, is_dir),
{
    assert(patterns.push(p).drop_last() =~= patterns);
}

// ---------------------------------------------------------------------------
// What is wrong with a skill
// ---------------------------------------------------------------------------

/// A problem, or none.
pub open spec fn problem_if(found: bool, text: Seq<char>) -> Seq<Seq<char>> {
    if found {
        seq![text]
    } else {
        Seq::empty()
    }
}

/// Whether a character may stand in the name of a skill.
pub open spec fn is_name_char(c: char) -> bool {
    'a' <= c <= 'z' || is_digit(c) || c == '-'
}

/// What is wrong with the name of a skill.
pub open spec fn name_problems(name: Seq<char>, parent: Seq<char>) -> Seq<Seq<char>> {
    problem_if(
        name != parent,
        "name \""@ + name + "\" does not match parent directory \""@ + parent + "\""@,
    ) + problem_if(
        name.len() > MAX_NAME_LENGTH,
        "name exceeds "@ + decimal(MAX_NAME_LENGTH as nat) + " characters ("@ + decimal(name.len())
            + ")"@,
    ) + problem_if(
        exists|i: int| 0 <= i < name.len() && !is_name_char(#[trigger] name[i]),
        "name contains invalid characters (must be lowercase a-z, 0-9, hyphens only)"@,
    ) + problem_if(
        name.len() > 0 && (name[0] == '-' || name.last() == '-'),
        "name must not start or end with a hyphen"@,
    ) + problem_if(occurs_in(name, "--"@), "name must not contain consecutive hyphens"@)
}

/// What is wrong with the description of a skill.
pub open spec fn description_problems(description: Option<Seq<char>>) -> Seq<Seq<char>> {
    match description {
        None => seq!["description is required"@],
        Some(text) => if trim(text).len() == 0 {
            seq!["description is required"@]
        } else {
            problem_if(
                text.len() > MAX_DESCRIPTION_LENGTH,
                "description exceeds "@ + decimal(MAX_DESCRIPTION_LENGTH as nat)
                    + " characters ("@ + decimal(text.len()) + ")"@,
            )
        },
    }
}

fn push_text(all: &mut Vec<String>, text: String)
    ensures
        texts(final(all)@) == texts(old(all)@).push(text@),
{
    let ghost before = all@;
    all.push(text);
    proof {
        assert(texts(all@) =~= texts(before).push(text@));
    }
}

fn has_other_chars(name: &str) -> (r: bool)
    ensures
        r == (exists|i: int| 0 <= i < name@.len() && !is_name_char(#[trigger] name@[i])),
{
    let chars: Vec<char> = chars_of(name);
    let mut i: usize = 0;
    while i < chars.len()
        invariant
            i <= chars@.len(),
            chars@ == name@,
            forall|k: int| 0 <= k < i ==> is_name_char(#[trigger] name@[k]),
        decreases chars@.len() - i,
    {
        let c: char = chars[i];
        if !(('a' <= c && c <= 'z') || ('0' <= c && c <= '9') || c == '-') {
            proof {
                assert(!is_name_char(name@[i as int]));
            }
            return true;
        }
        i = i + 1;
    }
    false
}

/// What is wrong with the name of a skill.
pub fn validate_name(name: &str, parent_dir_name: &str) -> (r: Vec<String>)
    ensures
        texts(r@) == name_problems(name@, parent_dir_name@),
{
    let mut errors: Vec<String> = Vec::new();
    let n: usize = name.unicode_len();
    proof {
        assert(texts(errors@) =~= Seq::<Seq<char>>::empty());
    }
    if !same_text(name, parent_dir_name) {
        push_text(
            &mut errors,
            concat5(
                "name \"",
                name,
                "\" does not match parent directory \"",
                parent_dir_name,
                "\"",
            ),
        );
    }
    if n > MAX_NAME_LENGTH {
        push_text(
            &mut errors,
            concat5(
                "name exceeds ",
                decimal_text(MAX_NAME_LENGTH as u64).as_str(),
                " characters (",
                decimal_text(n as u64).as_str(),
                ")",
            ),
        );
    }
    if has_other_chars(name) {
        push_text(
            &mut errors,
            "name contains invalid characters (must be lowercase a-z, 0-9, hyphens only)".to_string(),
        );
    }
    if n > 0 && (name.get_char(0) == '-' || name.get_char(n - 1) == '-') {
        push_text(&mut errors, "name must not start or end with a hyphen".to_string());
    }
    if contains_text(name, "--") {
        push_text(&mut errors, "name must not contain consecutive hyphens".to_string());
    }
    proof {
        assert(texts(errors@) =~= name_problems(name@, parent_dir_name@));
    }
    errors
}

/// What is wrong with the description of a skill.
pub fn validate_description(description: &Option<String>) -> (r: Vec<String>)
    ensures
        texts(r@) == description_problems(text_of_option(*description)),
{
    let mut errors: Vec<String> = Vec::new();
    proof {
        assert(texts(errors@) =~= Seq::<Seq<char>>::empty());
    }
    match description {
        None => {
            push_text(&mut errors, "description is required".to_string());
        },
        Some(text) => {
            let trimmed: String = trim_text(text.as_str());
            let n: usize = text.as_str().unicode_len();
            if trimmed.as_str().unicode_len() == 0 {
                push_text(&mut errors, "description is required".to_string());
            } else if n > MAX_DESCRIPTION_LENGTH {
                push_text(
                    &mut errors,
                    concat5(
                        "description exceeds ",
                        decimal_text(MAX_DESCRIPTION_LENGTH as u64).as_str(),
                        " characters (",
                        decimal_text(n as u64).as_str(),
                        ")",
                    ),
                );
            }
        },
    }
    proof {
        assert(texts(errors@) =~= description_problems(text_of_option(*description)));
    }
    errors
}

// ---------------------------------------------------------------------------
// Loading a skill
// ---------------------------------------------------------------------------

/// The mathematical value of a skill.
pub struct SkillView {
    pub name: Seq<char>,
    pub description: Seq<char>,
    pub content: Seq<char>,
    pub file_path: Seq<char>,
    pub disable_model_invocation: Option<bool>,
}

/// The mathematical value of a skill.
pub open spec fn skill_view(s: Skill) -> SkillView {
    SkillView {
        name: s.name@,
        description: s.description@,
        content: s.content@,
        file_path: s.file_path@,
        disable_model_invocation: s.disable_model_invocation,
    }
}

/// The mathematical value of a [`SkillDiagnostic`].
pub struct DiagnosticView {
    pub code: SkillDiagnosticCode,
    pub message: Seq<char>,
    pub path: Seq<char>,
}

impl View for SkillDiagnostic {
    type V = DiagnosticView;

    open spec fn view(&self) -> DiagnosticView {
        DiagnosticView { code: self.code, message: self.message@, path: self.path@ }
    }
}

/// The mathematical values of diagnostics.
pub open spec fn diagnostic_views(s: Seq<SkillDiagnostic>) -> Seq<DiagnosticView> {
    Seq::new(s.len(), |i: int| s[i]@)
}

/// Problems of the fields of a file.
pub open spec fn as_diagnostics(problems: Seq<Seq<char>>, path: Seq<char>) -> Seq<DiagnosticView> {
    Seq::new(
        problems.len(),
        |i: int|
            DiagnosticView {
                code: SkillDiagnosticCode::InvalidMetadata,
                message: problems[i],
                path,
            },
    )
}

/// Whether a file declares a skill by its name.
pub open spec fn declares_skill(path: Seq<char>) -> bool {
    let clean = without_trailing(path);
    (match last_separator(clean) {
        Some(i) => clean.skip(i + 1),
        None => clean,
    }) == "SKILL.md"@
}

fn is_declared_skill(path: &str) -> (r: bool)
    ensures
        r == declares_skill(path@),
{
    let clean: String = drop_trailing(path);
    match find_last_separator(clean.as_str()) {
        Some(i) => {
            let n: usize = clean.as_str().unicode_len();
            let last: String = substring(clean.as_str(), i + 1, n);
            same_text(last.as_str(), "SKILL.md")
        },
        None => same_text(clean.as_str(), "SKILL.md"),
    }
}

/// The skill of a file and what is wrong with it, from its fields. A file that
/// does not declare a skill by its name is none unless it has a description.
pub open spec fn skill_of(
    path: Seq<char>,
    parent: Seq<char>,
    body: Seq<char>,
    description: Result<Option<Seq<char>>, Seq<char>>,
    declared_name: Option<Seq<char>>,
    disabled: bool,
) -> (Option<SkillView>, Seq<DiagnosticView>) {
    match description {
        Err(message) => (
            None,
            if declares_skill(path) {
                seq![DiagnosticView { code: SkillDiagnosticCode::ParseFailed, message, path }]
            } else {
                Seq::empty()
            },
        ),
        Ok(text) => {
            let described = text is Some && trim(text->0).len() > 0;
            let name = match declared_name {
                Some(n) => n,
                None => parent,
            };
            if !declares_skill(path) && !described {
                (None, Seq::empty())
            } else {
                (
                    if described {
                        Some(
                            SkillView {
                                name,
                                description: text->0,
                                content: body,
                                file_path: path,
                                disable_model_invocation: Some(disabled),
                            },
                        )
                    } else {
                        None
                    },
                    as_diagnostics(description_problems(text), path) + as_diagnostics(
                        name_problems(name, parent),
                        path,
                    ),
                )
            }
        },
    }
}

/// A skill that may be missing.
pub open spec fn option_skill(s: Option<Skill>) -> Option<SkillView> {
    match s {
        Some(skill) => Some(skill_view(skill)),
        None => None,
    }
}

fn push_problems(diagnostics: &mut Vec<SkillDiagnostic>, problems: Vec<String>, path: &str)
    ensures
        diagnostic_views(final(diagnostics)@) == diagnostic_views(old(diagnostics)@)
            + as_diagnostics(texts(problems@), path@),
{
    let ghost before = diagnostic_views(diagnostics@);
    let ghost all = as_diagnostics(texts(problems@), path@);
    let mut i: usize = 0;
    proof {
        assert(before + all.take(0) =~= before);
    }
    while i < problems.len()
        invariant
            i <= problems@.len(),
            all == as_diagnostics(texts(problems@), path@),
            diagnostic_views(diagnostics@) == before + all.take(i as int),
        decreases problems@.len() - i,
    {
        let ghost held = diagnostics@;
        diagnostics.push(
            SkillDiagnostic {
                code: SkillDiagnosticCode::InvalidMetadata,
                message: problems[i].clone(),
                path: path.to_string(),
            },
        );
        proof {
            assert(diagnostic_views(diagnostics@) =~= diagnostic_views(held).push(
                diagnostics@.last()@,
            ));
            assert(diagnostic_views(diagnostics@) =~= before + all.take(i + 1));
        }
        i = i + 1;
    }
    proof {
        assert(all.take(all.len() as int) =~= all);
    }
}

/// The skill of a file and what is wrong with it, from its fields.
pub fn skill_from_fields(
    file_path: &str,
    parent_dir_name: &str,
    body: String,
    description: Result<Option<String>, String>,
    declared_name: Option<String>,
    disabled: bool,
) -> (r: (Option<Skill>, Vec<SkillDiagnostic>))
    ensures
        (option_skill(r.0), diagnostic_views(r.1@)) == skill_of(
            file_path@,
            parent_dir_name@,
            body@,
            field_result(description),
            text_of_option(declared_name),
            disabled,
        ),
{
    let mut diagnostics: Vec<SkillDiagnostic> = Vec::new();
    proof {
        assert(diagnostic_views(diagnostics@) =~= Seq::<DiagnosticView>::empty());
    }
    let declared: bool = is_declared_skill(file_path);
    match description {
        Err(message) => {
            if declared {
                diagnostics.push(
                    SkillDiagnostic {
                        code: SkillDiagnosticCode::ParseFailed,
                        message,
                        path: file_path.to_string(),
                    },
                );
                proof {
                    assert(diagnostic_views(diagnostics@) =~= seq![diagnostics@[0]@]);
                }
            }
            (None, diagnostics)
        },
        Ok(text) => {
            let described: bool = match &text {
                Some(t) => {
                    let trimmed: String = trim_text(t.as_str());
                    trimmed.as_str().unicode_len() > 0
                },
                None => false,
            };
            if !declared && !described {
                return (None, diagnostics);
            }
            push_problems(&mut diagnostics, validate_description(&text), file_path);
            let name: String = match declared_name {
                Some(name) => name,
                None => parent_dir_name.to_string(),
            };
            push_problems(
                &mut diagnostics,
                validate_name(name.as_str(), parent_dir_name),
                file_path,
            );
            proof {
                assert(diagnostic_views(diagnostics@) =~= as_diagnostics(
                    description_problems(text_of_option(text)),
                    file_path@,
                ) + as_diagnostics(name_problems(name@, parent_dir_name@), file_path@));
            }
            if !described {
                return (None, diagnostics);
            }
            match text {
                Some(description) => (
                    Some(
                        Skill {
                            name,
                            description,
                            content: body,
                            file_path: file_path.to_string(),
                            disable_model_invocation: Some(disabled),
                        },
                    ),
                    diagnostics,
                ),
                None => (None, diagnostics),
            }
        },
    }
}

/// The name that a file declares, if its fields can be read.
pub open spec fn declared_name(front: Result<YamlView, Seq<char>>) -> Option<Seq<char>> {
    match field_of(front, "name"@) {
        Ok(name) => name,
        Err(_) => None,
    }
}

/// The skill of a file and what is wrong with it.
pub fn skill_from_file(file_path: &str, parent_dir_name: &str, raw_content: &str) -> (r: (
    Option<Skill>,
    Vec<SkillDiagnostic>,
))
    requires
        front_fits(raw_content@),
    ensures
        ({
            let parts = front_parts(raw_content@);
            (option_skill(r.0), diagnostic_views(r.1@)) == skill_of(
                file_path@,
                parent_dir_name@,
                parts.1,
                field_of(front_value(parts.0), "description"@),
                declared_name(front_value(parts.0)),
                flag_of(front_value(parts.0), "disable-model-invocation"@),
            )
        }),
{
    let (fields, body) = split_front(raw_content);
    let front: Result<Yaml, String> = read_front(&fields);
    skill_from_front(file_path, parent_dir_name, body, &front)
}

/// The skill of a file and what is wrong with it, from what its front matter
/// holds.
pub fn skill_from_front(
    file_path: &str,
    parent_dir_name: &str,
    body: String,
    front: &Result<Yaml, String>,
) -> (r: (Option<Skill>, Vec<SkillDiagnostic>))
    ensures
        (option_skill(r.0), diagnostic_views(r.1@)) == skill_of(
            file_path@,
            parent_dir_name@,
            body@,
            field_of(yaml_result(*front), "description"@),
            declared_name(yaml_result(*front)),
            flag_of(yaml_result(*front), "disable-model-invocation"@),
        ),
{
    let description: Result<Option<String>, String> = read_field(front, "description");
    let name: Option<String> = match read_field(front, "name") {
        Ok(name) => name,
        Err(_) => None,
    };
    let disabled: bool = read_flag(front, "disable-model-invocation");
    skill_from_fields(file_path, parent_dir_name, body, description, name, disabled)
}

/// A loaded skill has a description that holds something, and the name that its
/// file declares or else that of its directory.
pub proof fn law_loaded_skills_are_described(
    path: Seq<char>,
    parent: Seq<char>,
    body: Seq<char>,
    description: Result<Option<Seq<char>>, Seq<char>>,
    name: Option<Seq<char>>,
    disabled: bool,
)
    ensures
        skill_of(path, parent, body, description, name, disabled).0 matches Some(skill) ==> {
            &&& trim(skill.description).len() > 0
            &&& skill.name == (match name {
                Some(n) => n,
                None => parent,
            })
            &&& skill.content == body
            &&& skill.file_path == path
        },
{
}

// ---------------------------------------------------------------------------
// Walking a directory
// ---------------------------------------------------------------------------

/// What is looked at in a directory: its skill file first, then its entries.
#[derive(Clone, Copy, PartialEq, Eq, Structural, Debug)]
pub enum WalkPhase {
    SkillFile,
    Entries,
    Done,
}

/// The walk through one directory.
pub struct DirectoryWalk {
    pub listed: Vec<FileInfo>,
    pub sorted: Vec<FileInfo>,
    pub root_dir: String,
    pub root_files: bool,
    pub phase: WalkPhase,
    pub index: usize,
    pub asked: bool,
}

/// What a walk does next.
pub enum WalkAction {
    Resolve { entry: FileInfo },
    Enter { path: String },
    Load { path: String },
    Finish,
}

/// The mathematical value of a [`DirectoryWalk`].
pub struct WalkView {
    pub listed: Seq<FileInfo>,
    pub sorted: Seq<FileInfo>,
    pub root_dir: Seq<char>,
    pub root_files: bool,
    pub phase: WalkPhase,
    pub index: nat,
    pub asked: bool,
}

/// The mathematical value of a [`WalkAction`].
pub enum WalkActionView {
    Resolve { entry: FileInfo },
    Enter { path: Seq<char> },
    Load { path: Seq<char> },
    Finish,
}

impl View for WalkAction {
    type V = WalkActionView;

    open spec fn view(&self) -> WalkActionView {
        match *self {
            WalkAction::Resolve { entry } => WalkActionView::Resolve { entry },
            WalkAction::Enter { path } => WalkActionView::Enter { path: path@ },
            WalkAction::Load { path } => WalkActionView::Load { path: path@ },
            WalkAction::Finish => WalkActionView::Finish,
        }
    }
}

impl View for DirectoryWalk {
    type V = WalkView;

    open spec fn view(&self) -> WalkView {
        WalkView {
            listed: self.listed@,
            sorted: self.sorted@,
            root_dir: self.root_dir@,
            root_files: self.root_files,
            phase: self.phase,
            index: self.index as nat,
            asked: self.asked,
        }
    }
}

/// Whether an entry is passed over for its name.
pub open spec fn is_passed_over(name: Seq<char>) -> bool {
    begins_with(name, "."@) || name == "node_modules"@
}

/// Whether an entry of a known kind is ignored.
pub open spec fn entry_ignored(
    patterns: Seq<PatternView>,
    root_dir: Seq<char>,
    path: Seq<char>,
    is_dir: bool,
) -> bool {
    let relative = relative_path(root_dir, path);
    is_ignored(
        patterns,
        if is_dir {
            relative + "/"@
        } else {
            relative
        },
        is_dir,
    )
}

/// What is known of the kind of an entry: its own, if it is no link.
pub open spec fn known_kind(entry: FileInfo) -> Option<FileKind> {
    if entry.kind == FileKind::File || entry.kind == FileKind::Directory {
        Some(entry.kind)
    } else {
        None
    }
}

impl WalkView {
    /// The walk at the next entry.
    pub open spec fn passed(self) -> WalkView {
        WalkView { index: self.index + 1, asked: false, ..self }
    }

    /// What is done with the current entry, given its kind, if anything.
    pub open spec fn handled(self, kind: Option<FileKind>, patterns: Seq<PatternView>) -> Option<
        (WalkView, WalkActionView),
    > {
        if self.phase == WalkPhase::SkillFile {
            let entry = self.listed[self.index as int];
            if kind == Some(FileKind::File) && !entry_ignored(
                patterns,
                self.root_dir,
                entry.path@,
                false,
            ) {
                Some(
                    (
                        WalkView { phase: WalkPhase::Done, asked: false, ..self },
                        WalkActionView::Load { path: entry.path@ },
                    ),
                )
            } else {
                None
            }
        } else {
            let entry = self.sorted[self.index as int];
            let is_dir = kind == Some(FileKind::Directory);
            if kind is None || entry_ignored(patterns, self.root_dir, entry.path@, is_dir) {
                None
            } else if is_dir {
                Some((self.passed(), WalkActionView::Enter { path: entry.path@ }))
            } else if kind == Some(FileKind::File) && self.root_files && finishes_with(
                entry.name@,
                ".md"@,
            ) {
                Some((self.passed(), WalkActionView::Load { path: entry.path@ }))
            } else {
                None
            }
        }
    }

    /// What the walk does from the current entry on.
    pub open spec fn went_on(self, patterns: Seq<PatternView>) -> (WalkView, WalkActionView)
        decreases
                if self.phase == WalkPhase::SkillFile {
                    2int
                } else {
                    1int
                },
                if self.phase == WalkPhase::SkillFile {
                    self.listed.len() - self.index
                } else {
                    self.sorted.len() - self.index
                },
    {
        match self.phase {
            WalkPhase::Done => (self, WalkActionView::Finish),
            WalkPhase::SkillFile => if self.index >= self.listed.len() {
                WalkView { phase: WalkPhase::Entries, index: 0, asked: false, ..self }.went_on(
                    patterns,
                )
            } else {
                let entry = self.listed[self.index as int];
                if entry.name@ != "SKILL.md"@ {
                    self.passed().went_on(patterns)
                } else if known_kind(entry) is None {
                    (WalkView { asked: true, ..self }, WalkActionView::Resolve { entry })
                } else {
                    match self.handled(known_kind(entry), patterns) {
                        Some(done) => done,
                        None => self.passed().went_on(patterns),
                    }
                }
            },
            WalkPhase::Entries => if self.index >= self.sorted.len() {
                (WalkView { phase: WalkPhase::Done, asked: false, ..self }, WalkActionView::Finish)
            } else {
                let entry = self.sorted[self.index as int];
                if is_passed_over(entry.name@) {
                    self.passed().went_on(patterns)
                } else if known_kind(entry) is None {
                    (WalkView { asked: true, ..self }, WalkActionView::Resolve { entry })
                } else {
                    match self.handled(known_kind(entry), patterns) {
                        Some(done) => done,
                        None => self.passed().went_on(patterns),
                    }
                }
            },
        }
    }

    /// What the walk does next, given what the link leads to that was asked for.
    pub open spec fn next(self, resolved: Option<FileKind>, patterns: Seq<PatternView>) -> (
        WalkView,
        WalkActionView,
    ) {
        if self.asked {
            match self.handled(resolved, patterns) {
                Some(done) => done,
                None => self.passed().went_on(patterns),
            }
        } else {
            self.went_on(patterns)
        }
    }
}

impl DirectoryWalk {
    /// An entry that was asked for is there.
    pub open spec fn wf(self) -> bool {
        &&& self.asked ==> !(self.phase is Done)
        &&& self.asked ==> self.index < if self.phase == WalkPhase::SkillFile {
            self.listed@.len()
        } else {
            self.sorted@.len()
        }
    }

    /// A walk through a listing. Files beside skill files are loaded only at the
    /// root.
    pub fn new(listed: Vec<FileInfo>, root_dir: &str, root_files: bool) -> (r: Self)
        ensures
            r.wf(),
            r@ == (WalkView {
                listed: listed@,
                sorted: by_name(listed@),
                root_dir: root_dir@,
                root_files,
                phase: WalkPhase::SkillFile,
                index: 0,
                asked: false,
            }),
    {
        let copy: Vec<FileInfo> = listed.clone();
        proof {
            assert(copy@ =~= listed@);
        }
        let sorted: Vec<FileInfo> = sort_by_name(copy);
        DirectoryWalk {
            listed,
            sorted,
            root_dir: root_dir.to_string(),
            root_files,
            phase: WalkPhase::SkillFile,
            index: 0,
            asked: false,
        }
    }

    fn is_ignored(&self, matcher: &IgnoreMatcher, path: &str, is_dir: bool) -> (r: bool)
        ensures
            r == entry_ignored(pattern_views(matcher.patterns@), self.root_dir@, path@, is_dir),
    {
        let relative: String = relative_env_path(self.root_dir.as_str(), path);
        if is_dir {
            let slashed_path: String = concat2(relative.as_str(), "/");
            matcher.ignores(slashed_path.as_str(), true)
        } else {
            matcher.ignores(relative.as_str(), false)
        }
    }

    fn handle(&mut self, kind: Option<FileKind>, matcher: &IgnoreMatcher) -> (r: Option<WalkAction>)
        requires
            !(old(self).phase is Done),
            old(self).index < (if old(self).phase == WalkPhase::SkillFile {
                old(self).listed@.len()
            } else {
                old(self).sorted@.len()
            }),
        ensures
            match r {
                Some(action) => old(self)@.handled(kind, pattern_views(matcher.patterns@)) == Some(
                    (final(self)@, action@),
                ) && final(self).wf(),
                None => old(self)@.handled(kind, pattern_views(matcher.patterns@)) is None
                    && *final(self) == *old(self),
            },
    {
        assert(self.sorted.len() <= usize::MAX);
        if self.phase == WalkPhase::SkillFile {
            let path: String = self.listed[self.index].path.clone();
            if kind == Some(FileKind::File) && !self.is_ignored(matcher, path.as_str(), false) {
                self.phase = WalkPhase::Done;
                self.asked = false;
                return Some(WalkAction::Load { path });
            }
            return None;
        }
        let path: String = self.sorted[self.index].path.clone();
        let is_dir: bool = kind == Some(FileKind::Directory);
        if kind.is_none() || self.is_ignored(matcher, path.as_str(), is_dir) {
            return None;
        }
        if is_dir {
            self.index = self.index + 1;
            self.asked = false;
            return Some(WalkAction::Enter { path });
        }
        if kind == Some(FileKind::File) && self.root_files && has_suffix(
            self.sorted[self.index].name.as_str(),
            ".md",
        ) {
            self.index = self.index + 1;
            self.asked = false;
            return Some(WalkAction::Load { path });
        }
        None
    }

    fn go_on(&mut self, matcher: &IgnoreMatcher) -> (r: WalkAction)
        requires
            !old(self).asked,
        ensures
            final(self).wf(),
            (final(self)@, r@) == old(self)@.went_on(pattern_views(matcher.patterns@)),
    {
        let ghost patterns = pattern_views(matcher.patterns@);
        let ghost start = self@;
        while self.phase == WalkPhase::SkillFile
            invariant
                !self.asked,
                start == old(self)@,
                patterns == pattern_views(matcher.patterns@),
                start.went_on(patterns) == self@.went_on(patterns),
            decreases
                    if self.phase == WalkPhase::SkillFile {
                        1int
                    } else {
                        0int
                    },
                    self.listed@.len() - self.index,
        {
            if self.index >= self.listed.len() {
                self.phase = WalkPhase::Entries;
                self.index = 0;
            } else if !same_text(self.listed[self.index].name.as_str(), "SKILL.md") {
                self.index = self.index + 1;
            } else {
                let kind: FileKind = self.listed[self.index].kind;
                if kind == FileKind::Symlink {
                    self.asked = true;
                    return WalkAction::Resolve { entry: self.listed[self.index].clone() };
                }
                assert(self.listed.len() <= usize::MAX);
                match self.handle(Some(kind), matcher) {
                    Some(action) => {
                        return action;
                    },
                    None => {
                        self.index = self.index + 1;
                    },
                }
            }
        }
        while self.phase == WalkPhase::Entries
            invariant
                !self.asked,
                start == old(self)@,
                !(self.phase is SkillFile),
                patterns == pattern_views(matcher.patterns@),
                start.went_on(patterns) == self@.went_on(patterns),
            decreases
                    if self.phase == WalkPhase::Entries {
                        1int
                    } else {
                        0int
                    },
                    self.sorted@.len() - self.index,
        {
            if self.index >= self.sorted.len() {
                self.phase = WalkPhase::Done;
                return WalkAction::Finish;
            }
            assert(self.sorted.len() <= usize::MAX);
            let passed_over: bool = has_prefix(self.sorted[self.index].name.as_str(), ".")
                || same_text(self.sorted[self.index].name.as_str(), "node_modules");
            if passed_over {
                self.index = self.index + 1;
            } else {
                let kind: FileKind = self.sorted[self.index].kind;
                if kind == FileKind::Symlink {
                    self.asked = true;
                    return WalkAction::Resolve { entry: self.sorted[self.index].clone() };
                }
                match self.handle(Some(kind), matcher) {
                    Some(action) => {
                        return action;
                    },
                    None => {
                        self.index = self.index + 1;
                    },
                }
            }
        }
        WalkAction::Finish
    }

    /// What the walk does next: a link to follow, a directory to enter, a file to
    /// load, or nothing. `resolved` is what the link leads to that was asked for.
    pub fn next(&mut self, resolved: Option<FileKind>, matcher: &IgnoreMatcher) -> (r: WalkAction)
        requires
            old(self).wf(),
        ensures
            final(self).wf(),
            (final(self)@, r@) == old(self)@.next(resolved, pattern_views(matcher.patterns@)),
    {
        if self.asked {
            assert(self.listed.len() <= usize::MAX && self.sorted.len() <= usize::MAX);
            match self.handle(resolved, matcher) {
                Some(action) => {
                    return action;
                },
                None => {
                    self.index = self.index + 1;
                    self.asked = false;
                },
            }
        }
        self.go_on(matcher)
    }
}

/// A directory with a skill file is that skill alone: where the walk takes the
/// file, it loads it, and neither loads nor enters anything else.
pub proof fn law_skill_files_end_the_walk(
    walk: WalkView,
    kind: Option<FileKind>,
    later: Option<FileKind>,
    patterns: Seq<PatternView>,
)
    requires
        walk.phase == WalkPhase::SkillFile,
        walk.handled(kind, patterns) is Some,
    ensures
        walk.handled(kind, patterns) matches Some(step) && step.1 is Load && step.0.next(
            later,
            patterns,
        ).1 is Finish,
{
}

// ---------------------------------------------------------------------------
// Using a skill
// ---------------------------------------------------------------------------

/// A skill as the model is told of it, with further instructions or without.
pub open spec fn skill_invocation(skill: SkillView, instructions: Option<Seq<char>>) -> Seq<char> {
    let block = "<skill name=\""@ + skill.name + "\" location=\""@ + skill.file_path
        + "\">\nReferences are relative to "@ + directory_of(skill.file_path) + ".\n\n"@
        + skill.content + "\n</skill>"@;
    match instructions {
        Some(text) => block + "\n\n"@ + text,
        None => block,
    }
}

/// A skill as the model is told of it, with further instructions or without.
pub fn format_skill_invocation(skill: &Skill, additional_instructions: Option<&str>) -> (r: String)
    ensures
        r@ == skill_invocation(
            skill_view(*skill),
            match additional_instructions {
                Some(text) => Some(text@),
                None => None,
            },
        ),
{
    let head: String = concat5(
        "<skill name=\"",
        skill.name.as_str(),
        "\" location=\"",
        skill.file_path.as_str(),
        "\">\nReferences are relative to ",
    );
    let directory: String = dirname_env_path(skill.file_path.as_str());
    let block: String = concat5(
        head.as_str(),
        directory.as_str(),
        ".\n\n",
        skill.content.as_str(),
        "\n</skill>",
    );
    match additional_instructions {
        Some(text) => concat3(block.as_str(), "\n\n", text),
        None => block,
    }
}

/// What is said of an object that could not be looked at: nothing where it does
/// not exist.
pub fn skill_info_diagnostic(error: &FileError, path: &str) -> (r: Option<SkillDiagnostic>)
    ensures
        match r {
            Some(d) => error.code != FileErrorCode::NotFound && d@ == (DiagnosticView {
                code: SkillDiagnosticCode::FileInfoFailed,
                message: error.message@,
                path: path@,
            }),
            None => error.code == FileErrorCode::NotFound,
        },
{
    if error.code == FileErrorCode::NotFound {
        None
    } else {
        Some(
            SkillDiagnostic {
                code: SkillDiagnosticCode::FileInfoFailed,
                message: error.message.clone(),
                path: path.to_string(),
            },
        )
    }
}

/// What is done about one of the files that say what is ignored.
pub enum IgnoreFileAction {
    Skip,
    Read,
    Report(SkillDiagnostic),
}

/// What is done about one of the files that say what is ignored: only a plain
/// file is read, and one that does not exist is passed over.
pub fn ignore_file_action(info: Result<FileInfo, FileError>, path: &str) -> (r: IgnoreFileAction)
    ensures
        match info {
            Ok(found) => if found.kind == FileKind::File {
                r is Read
            } else {
                r is Skip
            },
            Err(error) => if error.code == FileErrorCode::NotFound {
                r is Skip
            } else {
                r matches IgnoreFileAction::Report(d) && d@ == (DiagnosticView {
                    code: SkillDiagnosticCode::FileInfoFailed,
                    message: error.message@,
                    path: path@,
                })
            },
        },
{
    match info {
        Ok(found) => if found.kind == FileKind::File {
            IgnoreFileAction::Read
        } else {
            IgnoreFileAction::Skip
        },
        Err(error) => match skill_info_diagnostic(&error, path) {
            Some(diagnostic) => IgnoreFileAction::Report(diagnostic),
            None => IgnoreFileAction::Skip,
        },
    }
}

impl IgnoreMatcher {
    /// Takes in what a file says is ignored, or says why it could not be read.
    pub fn add_file(
        &mut self,
        content: Result<String, FileError>,
        root_dir: &str,
        dir: &str,
        path: &str,
    ) -> (r: Option<SkillDiagnostic>)
        ensures
            match content {
                Ok(text) => r is None && pattern_views(final(self).patterns@) == pattern_views(
                    old(self).patterns@,
                ) + all_compiled(
                    lines_patterns(split(text@, '\n'), pattern_prefix(root_dir@, dir@)),
                ),
                Err(error) => r matches Some(d) && d@ == (DiagnosticView {
                    code: SkillDiagnosticCode::ReadFailed,
                    message: error.message@,
                    path: path@,
                }) && *final(self) == *old(self),
            },
    {
        match content {
            Ok(text) => {
                self.add(&ignore_patterns(text.as_str(), root_dir, dir));
                None
            },
            Err(error) => Some(
                SkillDiagnostic {
                    code: SkillDiagnosticCode::ReadFailed,
                    message: error.message,
                    path: path.to_string(),
                },
            ),
        }
    }
}

} // verus!
