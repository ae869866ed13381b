//! What holds of skills: which files are ignored, what a skill must say of
//! itself, and what is made of its file.

use vstd::prelude::*;

use crate::front_matter::{front_parts, paired_with, YamlView};
use crate::harness_types::{FileInfo, FileKind};
use crate::skills::{
    compiled, declares_skill, description_problems, directory_of, entry_ignored, is_ignored,
    is_name_char, is_passed_over, known_kind, line_pattern, lines_patterns, name_problems,
    parts_in_order, relative_path, segments_match, skill_invocation, skill_of, slashed,
    star_match, without_return, DiagnosticView, PatternView, SkillDiagnosticCode, SkillView,
    WalkActionView, WalkPhase, WalkView,
};
use crate::text::{
    begins_with, finishes_with, first_match, lemma_first_match, matches_at, occurs_in,
    replace_char, split, trim, trim_end,
};
use crate::text_laws::{law_only_space_is_trimmed, law_separators_part_a_text};
use crate::tools::edit_diff::{law_normalizing_undoes_restoring, to_lf};

verus! {

// ---------------------------------------------------------------------------
// Patterns
// ---------------------------------------------------------------------------

/// A pattern with one star stands for the texts that begin with what is before
/// the star and end with what is behind it, where the two do not overlap.
pub proof fn law_a_star_stands_for_anything(a: Seq<char>, b: Seq<char>, text: Seq<char>)
    requires
        !a.contains('*'),
        !b.contains('*'),
    ensures
        star_match(a + seq!['*'] + b, text) <==> {
            &&& text.len() >= a.len() + b.len()
            &&& text.take(a.len() as int) == a
            &&& text.skip(text.len() - b.len()) == b
        },
{
    law_separators_part_a_text(a, b, '*');
    law_separators_part_a_text(b, b, '*');
    let parts = split(a + seq!['*'] + b, '*');
    assert(parts =~= seq![a, b]);
    reveal_with_fuel(parts_in_order, 3);
    lemma_first_match(text, a, 0);
    let n = a.len() as int;
    let m = text.len() - b.len();
    let fits = text.len() >= a.len() + b.len() && text.take(n) == a && text.skip(m) == b;
    if fits {
        assert(text.subrange(0, n) =~= a);
        assert(matches_at(text, 0, a));
        lemma_first_match(text, b, n);
        assert(text.subrange(m, m + b.len()) =~= b);
        assert(matches_at(text, m, b));
        assert(finishes_with(text, b));
        lemma_first_match(text, b, 0);
    }
    if star_match(a + seq!['*'] + b, text) {
        if a.len() > 0 {
            assert(text.take(n) =~= text.subrange(0, n));
        } else {
            assert(text.take(n) =~= a);
        }
        if b.len() > 0 {
            lemma_first_match(text, b, n);
            assert(text.skip(m) =~= text.subrange(m, text.len() as int));
        } else {
            assert(text.skip(m) =~= b);
        }
    }
}

/// A pattern without stars stands for its path and for what lies below it.
pub proof fn law_plain_patterns_stand_for_their_path(
    pattern: Seq<Seq<char>>,
    path: Seq<Seq<char>>,
)
    requires
        forall|i: int| 0 <= i < pattern.len() ==> !(#[trigger] pattern[i]).contains('*'),
    ensures
        segments_match(pattern, path) <==> path.len() >= pattern.len() && path.take(
            pattern.len() as int,
        ) == pattern,
    decreases pattern.len(),
{
    if pattern.len() == 0 {
        assert(path.take(0) =~= pattern);
    } else {
        assert(!pattern[0].contains('*'));
        law_separators_part_a_text(pattern[0], pattern[0], '*');
        reveal_strlit("**");
        assert("**"@.contains("**"@[0]));
        let rest = pattern.skip(1);
        assert forall|i: int| 0 <= i < rest.len() implies !(#[trigger] rest[i]).contains('*') by {
            assert(rest[i] == pattern[i + 1]);
        }
        if path.len() > 0 {
            let tail = path.skip(1);
            law_plain_patterns_stand_for_their_path(rest, tail);
            let n = pattern.len() as int;
            if path.len() >= n && path.take(n) == pattern {
                assert(path.take(n)[0] == path[0]);
                assert(tail.take(n - 1) =~= path.take(n).skip(1));
                assert(segments_match(rest, tail));
            }
            if segments_match(pattern, path) {
                assert(path.take(n) =~= seq![path[0]] + tail.take(n - 1));
                assert(pattern =~= seq![pattern[0]] + rest);
            }
        }
    }
}

/// Two stars stand for any number of directories, also for none.
pub proof fn law_two_stars_stand_for_directories(
    rest: Seq<Seq<char>>,
    front: Seq<Seq<char>>,
    path: Seq<Seq<char>>,
)
    requires
        segments_match(rest, path),
    ensures
        segments_match(seq!["**"@] + rest, front + path),
{
    let pattern = seq!["**"@] + rest;
    assert(pattern.skip(1) =~= rest);
    let k = front.len() as int;
    assert((front + path).skip(k) =~= path);
    assert(segments_match(pattern.skip(1), (front + path).skip(k)));
}

/// The last pattern that a path matches decides whether it is ignored, and
/// nothing is ignored without one.
pub proof fn law_the_last_pattern_decides(
    patterns: Seq<PatternView>,
    p: PatternView,
    path: Seq<char>,
    is_dir: bool,
)
    ensures
        !is_ignored(Seq::empty(), path, is_dir),
        ({
            let matches = segments_match(p.segments, split(path, '/')) && (p.directory_only
                ==> is_dir);
            is_ignored(patterns.push(p), path, is_dir) == if matches {
                !p.negated
            } else {
                is_ignored(patterns, path, is_dir)
            }
        }),
{
    assert(patterns.push(p).drop_last() =~= patterns);
}

/// A pattern names the parts of a path; with an exclamation mark in front it is
/// negated, and with a slash at its end it is of directories.
pub proof fn law_marks_of_a_pattern(pattern: Seq<char>)
    requires
        pattern.len() > 0,
        pattern[0] != '!',
        pattern.last() != '/',
    ensures
        compiled(pattern) == Some(
            PatternView { negated: false, directory_only: false, segments: split(pattern, '/') },
        ),
        compiled(seq!['!'] + pattern) == Some(
            PatternView { negated: true, directory_only: false, segments: split(pattern, '/') },
        ),
        compiled(pattern + seq!['/']) == Some(
            PatternView { negated: false, directory_only: true, segments: split(pattern, '/') },
        ),
{
    reveal_strlit("!");
    reveal_strlit("/");
    let slash = |c: char| c == '/';
    reveal_with_fuel(trim_end, 2);
    // As it is.
    if begins_with(pattern, "!"@) {
        assert(pattern.subrange(0, 1)[0] == pattern[0]);
    }
    if finishes_with(pattern, "/"@) {
        assert(pattern.subrange(pattern.len() - 1, pattern.len() as int)[0] == pattern.last());
    }
    // Negated.
    let negated = seq!['!'] + pattern;
    assert(negated.subrange(0, 1) =~= "!"@);
    assert(negated.skip(1) =~= pattern);
    // Of directories.
    let of_dir = pattern + seq!['/'];
    if begins_with(of_dir, "!"@) {
        assert(of_dir.subrange(0, 1)[0] == of_dir[0]);
    }
    assert(of_dir.subrange(of_dir.len() - 1, of_dir.len() as int) =~= "/"@);
    assert(of_dir.drop_last() =~= pattern);
    assert(trim_end(of_dir, slash) == pattern);
}

/// A line of an ignore file is a pattern below its directory, with its negation
/// kept in front and a slash in front dropped. Blank lines and comments are
/// none.
pub proof fn law_lines_are_patterns(line: Seq<char>, prefix: Seq<char>)
    requires
        trim(line).len() > 0,
        trim(line)[0] != '#',
        line[0] != '!',
        line[0] != '/',
        line[0] != '\\',
    ensures
        line_pattern(line, prefix) == Some(prefix + line),
        trim(seq!['!'] + line).len() > 0 && trim(seq!['!'] + line)[0] != '#' ==> line_pattern(
            seq!['!'] + line,
            prefix,
        ) == Some("!"@ + (prefix + line)),
        trim(seq!['/'] + line).len() > 0 && trim(seq!['/'] + line)[0] != '#' ==> line_pattern(
            seq!['/'] + line,
            prefix,
        ) == Some(prefix + line),
{
    reveal_strlit("!");
    reveal_strlit("/");
    reveal_strlit("\\!");
    law_only_space_is_trimmed(line);
    assert(line.len() > 0);
    lemma_not_begun(line, "!"@);
    lemma_not_begun(line, "/"@);
    lemma_not_begun(line, "\\!"@);
    let negated = seq!['!'] + line;
    assert(negated.subrange(0, 1) =~= "!"@);
    assert(negated.skip(1) =~= line);
    let rooted = seq!['/'] + line;
    lemma_not_begun(rooted, "!"@);
    lemma_not_begun(rooted, "\\!"@);
    assert(rooted.subrange(0, 1) =~= "/"@);
    assert(rooted.skip(1) =~= line);
}

proof fn lemma_not_begun(s: Seq<char>, prefix: Seq<char>)
    requires
        s.len() > 0,
        prefix.len() > 0,
        s[0] != prefix[0],
    ensures
        !begins_with(s, prefix),
{
    if begins_with(s, prefix) {
        assert(s.subrange(0, prefix.len() as int)[0] == s[0]);
    }
}

/// The patterns of an ignore file are those of its lines, in order.
pub proof fn law_patterns_stand_in_order(lines: Seq<Seq<char>>, prefix: Seq<char>)
    ensures
        lines_patterns(lines, prefix) == lines.filter_map(
            |line: Seq<char>| line_pattern(without_return(line), prefix),
        ),
    decreases lines.len(),
{
    let f = |line: Seq<char>| line_pattern(without_return(line), prefix);
    if lines.len() > 0 {
        law_patterns_stand_in_order(lines.drop_last(), prefix);
    }
    assert(lines_patterns(lines, prefix) =~= lines.filter_map(f));
}

// ---------------------------------------------------------------------------
// What a skill must say
// ---------------------------------------------------------------------------

/// Nothing is wrong with a name exactly when it is that of its directory, is not
/// too long, holds small letters, digits and single hyphens, and neither begins
/// nor ends with a hyphen.
pub proof fn law_good_names_have_no_problem(name: Seq<char>, parent: Seq<char>)
    ensures
        name_problems(name, parent).len() == 0 <==> {
            &&& name == parent
            &&& name.len() <= 64
            &&& forall|i: int|
                0 <= i < name.len() ==> 'a' <= #[trigger] name[i] <= 'z' || '0' <= name[i] <= '9'
                    || name[i] == '-'
            &&& name.len() > 0 ==> name[0] != '-' && name.last() != '-'
            &&& !occurs_in(name, "--"@)
        },
{
    if name_problems(name, parent).len() == 0 {
        assert forall|i: int| 0 <= i < name.len() implies 'a' <= #[trigger] name[i] <= 'z' || '0'
            <= name[i] <= '9' || name[i] == '-' by {
            assert(is_name_char(name[i]));
        }
    }
}

/// Nothing is wrong with a description exactly when it is there, is not blank
/// and is not too long.
pub proof fn law_good_descriptions_have_no_problem(description: Option<Seq<char>>)
    ensures
        description_problems(description).len() == 0 <==> (description matches Some(text) && trim(
            text,
        ).len() > 0 && text.len() <= 1024),
{
}

/// A file with a description is a skill, with its body, under the name that it
/// declares or else that of its directory, whatever else is wrong with it. One
/// without is none; what is wrong is told of files that are to be skills.
pub proof fn law_described_files_are_skills(
    path: Seq<char>,
    parent: Seq<char>,
    body: Seq<char>,
    description: Seq<char>,
    name: Option<Seq<char>>,
    disabled: bool,
    problem: Seq<char>,
)
    ensures
        trim(description).len() > 0 ==> skill_of(
            path,
            parent,
            body,
            Ok(Some(description)),
            name,
            disabled,
        ).0 == Some(
            SkillView {
                name: match name {
                    Some(n) => n,
                    None => parent,
                },
                description,
                content: body,
                file_path: path,
                disable_model_invocation: Some(disabled),
            },
        ),
        skill_of(path, parent, body, Ok(None), name, disabled).0 is None,
        trim(description).len() == 0 ==> skill_of(
            path,
            parent,
            body,
            Ok(Some(description)),
            name,
            disabled,
        ).0 is None,
        skill_of(path, parent, body, Err(problem), name, disabled).0 is None,
        !declares_skill(path) ==> skill_of(path, parent, body, Err(problem), name, disabled).1.len()
            == 0 && skill_of(path, parent, body, Ok(None), name, disabled).1.len() == 0,
        declares_skill(path) ==> skill_of(path, parent, body, Err(problem), name, disabled).1
            == seq![
            DiagnosticView { code: SkillDiagnosticCode::ParseFailed, message: problem, path },
        ] && skill_of(path, parent, body, Ok(None), name, disabled).1.len() > 0,
{
}

/// What is told of a skill holds its name, where it is and its whole content,
/// and behind that what else is asked for.
pub proof fn law_invoked_skills_are_told_whole(skill: SkillView, instructions: Seq<char>)
    ensures
        ({
            let told = "<skill name=\""@ + skill.name + "\" location=\""@ + skill.file_path
                + "\">\nReferences are relative to "@ + directory_of(skill.file_path) + ".\n\n"@
                + skill.content + "\n</skill>"@;
            &&& skill_invocation(skill, None) == told
            &&& skill_invocation(skill, Some(instructions)) == told + "\n\n"@ + instructions
        }),
{
}

// ---------------------------------------------------------------------------
// Paths
// ---------------------------------------------------------------------------

proof fn lemma_no_backslash(s: Seq<char>)
    requires
        !s.contains('\\'),
    ensures
        replace_char(s, '\\', "/"@) == s,
    decreases s.len(),
{
    if s.len() > 0 {
        let front = s.drop_last();
        assert forall|i: int| 0 <= i < front.len() implies front[i] != '\\' by {
            assert(s.contains(s[i]));
        }
        lemma_no_backslash(front);
        assert(s.contains(s.last()));
        assert(replace_char(s, '\\', "/"@) =~= s);
    } else {
        assert(replace_char(s, '\\', "/"@) =~= s);
    }
}

/// A path below a root is seen from it without the root and the slash behind
/// that, and the root itself as nothing.
pub proof fn law_paths_are_seen_from_their_root(root: Seq<char>, path: Seq<char>)
    requires
        !root.contains('\\'),
        !path.contains('\\'),
        path.len() > 0,
        path.last() != '/',
        root.len() > 0,
        root.last() != '/',
    ensures
        relative_path(root, root + seq!['/'] + path) == path,
        relative_path(root, root).len() == 0,
{
    reveal_strlit("/");
    let all = root + seq!['/'] + path;
    assert forall|i: int| 0 <= i < all.len() implies all[i] != '\\' by {
        if i < root.len() {
            assert(root.contains(root[i]));
        } else if i > root.len() {
            assert(path.contains(path[i - root.len() - 1]));
        }
    }
    lemma_no_backslash(root);
    lemma_no_backslash(all);
    assert(slashed(root) == root);
    assert(all.last() == path.last());
    assert(slashed(all) == all);
    assert(root + "/"@ =~= all.take(root.len() as int + 1));
    assert(all.subrange(0, root.len() as int + 1) =~= root + "/"@);
    assert(all.skip(root.len() as int + 1) =~= path);
}

// ---------------------------------------------------------------------------
// Fields
// ---------------------------------------------------------------------------

/// The fields of a file stand between two lines of dashes, the first at its
/// start; its body is what follows, without the space around it.
pub proof fn law_fields_stand_between_dashes(fields: Seq<char>, body: Seq<char>)
    requires
        !fields.contains('\r'),
        !body.contains('\r'),
        !occurs_in(seq!['\n'] + fields, "\n---"@),
        forall|i: int|
            0 <= i < 4 + fields.len() ==> i < 3 || !#[trigger] matches_at(
                "---\n"@ + fields + "\n---"@ + body,
                i,
                "\n---"@,
            ),
    ensures
        front_parts("---\n"@ + fields + "\n---"@ + body) == (Some(fields), trim(body)),
{
    reveal_strlit("---");
    reveal_strlit("\n---");
    reveal_strlit("---\n");
    let text = "---\n"@ + fields + "\n---"@ + body;
    assert forall|i: int| 0 <= i < text.len() implies text[i] != '\r' by {
        let n = 4 + fields.len();
        if 4 <= i < n {
            assert(fields.contains(fields[i - 4]));
        } else if i >= n + 4 {
            assert(body.contains(body[i - n - 4]));
        }
    }
    lemma_no_return(text);
    let n = 4 + fields.len() as int;
    assert(text.subrange(0, 3) =~= "---"@);
    lemma_first_match(text, "\n---"@, 3);
    assert(text.subrange(n, n + 4) =~= "\n---"@);
    assert(matches_at(text, n, "\n---"@));
    assert(first_match(text, "\n---"@, 3) == Some(n));
    assert(text.subrange(4, n) =~= fields);
    assert(text.skip(n + 4) =~= body);
}

proof fn lemma_no_return(text: Seq<char>)
    requires
        !text.contains('\r'),
    ensures
        to_lf(text) == text,
{
    reveal_strlit("\n");
    reveal_strlit("\r\n");
    law_normalizing_undoes_restoring(text, "\n"@);
}

/// A field has the value of the first pair that has its name.
pub proof fn law_the_first_field_counts(
    front: Seq<(YamlView, YamlView)>,
    key: Seq<char>,
    value: YamlView,
    back: Seq<(YamlView, YamlView)>,
)
    requires
        forall|i: int|
            0 <= i < front.len() ==> (#[trigger] front[i]).0 != YamlView::Text(key),
    ensures
        paired_with(front + seq![(YamlView::Text(key), value)] + back, key, 0) == Some(value),
        YamlView::Mapping(front + seq![(YamlView::Text(key), value)] + back).field(key) == Some(
            value,
        ),
        YamlView::Mapping(front).field(key) is None,
{
    let all = front + seq![(YamlView::Text(key), value)] + back;
    lemma_pair(all, key, 0, front.len() as int);
    lemma_no_pair(front, key, 0);
}

proof fn lemma_pair(pairs: Seq<(YamlView, YamlView)>, key: Seq<char>, from: int, at: int)
    requires
        0 <= from <= at < pairs.len(),
        pairs[at].0 == YamlView::Text(key),
        forall|i: int| from <= i < at ==> (#[trigger] pairs[i]).0 != YamlView::Text(key),
    ensures
        paired_with(pairs, key, from) == Some(pairs[at].1),
    decreases at - from,
{
    if from < at {
        assert(pairs[from].0 != YamlView::Text(key));
        lemma_pair(pairs, key, from + 1, at);
    }
}

proof fn lemma_no_pair(pairs: Seq<(YamlView, YamlView)>, key: Seq<char>, from: int)
    requires
        0 <= from,
        forall|i: int| from <= i < pairs.len() ==> (#[trigger] pairs[i]).0 != YamlView::Text(key),
    ensures
        paired_with(pairs, key, from) is None,
    decreases pairs.len() - from,
{
    if from < pairs.len() {
        lemma_no_pair(pairs, key, from + 1);
    }
}

// ---------------------------------------------------------------------------
// Walks
// ---------------------------------------------------------------------------

/// What an entry is, given what links lead to.
pub open spec fn kind_behind(
    entry: FileInfo,
    resolves: spec_fn(FileInfo) -> Option<FileKind>,
) -> Option<FileKind> {
    if entry.kind == FileKind::File || entry.kind == FileKind::Directory {
        Some(entry.kind)
    } else {
        resolves(entry)
    }
}

/// What is to be done with an entry of a directory that is not itself a skill: a
/// directory is entered and, at the root, a file that ends in `.md` is loaded,
/// unless it is hidden, holds modules or is ignored.
pub open spec fn to_do(
    walk: WalkView,
    patterns: Seq<PatternView>,
    resolves: spec_fn(FileInfo) -> Option<FileKind>,
    entry: FileInfo,
) -> Option<WalkActionView> {
    let name = entry.name@;
    let hidden = name.len() > 0 && name[0] == '.' || name == "node_modules"@;
    match kind_behind(entry, resolves) {
        Some(FileKind::Directory) => if hidden || entry_ignored(
            patterns,
            walk.root_dir,
            entry.path@,
            true,
        ) {
            None
        } else {
            Some(WalkActionView::Enter { path: entry.path@ })
        },
        Some(FileKind::File) => if hidden || entry_ignored(
            patterns,
            walk.root_dir,
            entry.path@,
            false,
        ) || !walk.root_files || !finishes_with(name, ".md"@) {
            None
        } else {
            Some(WalkActionView::Load { path: entry.path@ })
        },
        _ => None,
    }
}

/// What is to be done with an entry that may make its directory a skill.
pub open spec fn skill_to_do(
    walk: WalkView,
    patterns: Seq<PatternView>,
    resolves: spec_fn(FileInfo) -> Option<FileKind>,
    entry: FileInfo,
) -> Option<WalkActionView> {
    if entry.name@ == "SKILL.md"@ && kind_behind(entry, resolves) == Some(FileKind::File)
        && !entry_ignored(patterns, walk.root_dir, entry.path@, false) {
        Some(WalkActionView::Load { path: entry.path@ })
    } else {
        None
    }
}

/// What a walk has yet to do: to load the file of the skill that its directory
/// is, or else what is to be done with its entries, in the order of their names.
pub open spec fn yet_to_do(
    walk: WalkView,
    patterns: Seq<PatternView>,
    resolves: spec_fn(FileInfo) -> Option<FileKind>,
) -> Seq<WalkActionView> {
    let others = |e: FileInfo| to_do(walk, patterns, resolves, e);
    let own = |e: FileInfo| skill_to_do(walk, patterns, resolves, e);
    match walk.phase {
        WalkPhase::Done => Seq::empty(),
        WalkPhase::SkillFile => {
            let skills = walk.listed.skip(walk.index as int).filter_map(own);
            if skills.len() > 0 {
                seq![skills[0]]
            } else {
                walk.sorted.filter_map(others)
            }
        },
        WalkPhase::Entries => walk.sorted.skip(walk.index as int).filter_map(others),
    }
}

/// Whether a step of a walk does the next of what there was to do, or asks for
/// what a link leads to, and leaves the rest.
pub open spec fn does_the_next(
    todo: Seq<WalkActionView>,
    step: (WalkView, WalkActionView),
    patterns: Seq<PatternView>,
    resolves: spec_fn(FileInfo) -> Option<FileKind>,
) -> bool {
    todo == match step.1 {
        WalkActionView::Resolve { .. } => yet_to_do(step.0, patterns, resolves),
        WalkActionView::Finish => Seq::empty(),
        WalkActionView::Enter { .. } => seq![step.1] + yet_to_do(step.0, patterns, resolves),
        WalkActionView::Load { .. } => seq![step.1] + yet_to_do(step.0, patterns, resolves),
    }
}

proof fn lemma_filter_first<A, B>(s: Seq<A>, f: spec_fn(A) -> Option<B>)
    requires
        s.len() > 0,
    ensures
        s.filter_map(f) == match f(s[0]) {
            Some(b) => seq![b] + s.skip(1).filter_map(f),
            None => s.skip(1).filter_map(f),
        },
    decreases s.len(),
{
    let rest = s.skip(1);
    if s.len() == 1 {
        reveal_with_fuel(Seq::filter_map, 2);
        assert(rest =~= Seq::<A>::empty());
        assert(s.drop_last() =~= Seq::<A>::empty());
        assert(s.filter_map(f) =~= match f(s[0]) {
            Some(b) => seq![b] + rest.filter_map(f),
            None => rest.filter_map(f),
        });
    } else {
        lemma_filter_first(s.drop_last(), f);
        assert(s.drop_last().skip(1) =~= rest.drop_last());
        assert(s.last() == rest.last());
        assert(s.filter_map(f) =~= match f(s[0]) {
            Some(b) => seq![b] + rest.filter_map(f),
            None => rest.filter_map(f),
        });
    }
}

proof fn lemma_passed(
    walk: WalkView,
    patterns: Seq<PatternView>,
    resolves: spec_fn(FileInfo) -> Option<FileKind>,
)
    requires
        walk.phase == WalkPhase::Entries,
        walk.index < walk.sorted.len(),
    ensures
        ({
            let entry = walk.sorted[walk.index as int];
            yet_to_do(walk, patterns, resolves) == match to_do(walk, patterns, resolves, entry) {
                Some(action) => seq![action] + yet_to_do(walk.passed(), patterns, resolves),
                None => yet_to_do(walk.passed(), patterns, resolves),
            }
        }),
{
    let f = |e: FileInfo| to_do(walk, patterns, resolves, e);
    let g = |e: FileInfo| to_do(walk.passed(), patterns, resolves, e);
    assert(f =~= g);
    let rest = walk.sorted.skip(walk.index as int);
    lemma_filter_first(rest, f);
    assert(rest.skip(1) =~= walk.sorted.skip(walk.index as int + 1));
    assert(rest[0] == walk.sorted[walk.index as int]);
}

proof fn lemma_passed_skill(
    walk: WalkView,
    patterns: Seq<PatternView>,
    resolves: spec_fn(FileInfo) -> Option<FileKind>,
)
    requires
        walk.phase == WalkPhase::SkillFile,
        walk.index < walk.listed.len(),
    ensures
        ({
            let entry = walk.listed[walk.index as int];
            yet_to_do(walk, patterns, resolves) == match skill_to_do(
                walk,
                patterns,
                resolves,
                entry,
            ) {
                Some(action) => seq![action],
                None => yet_to_do(walk.passed(), patterns, resolves),
            }
        }),
{
    let f = |e: FileInfo| skill_to_do(walk, patterns, resolves, e);
    let g = |e: FileInfo| skill_to_do(walk.passed(), patterns, resolves, e);
    assert(f =~= g);
    let f2 = |e: FileInfo| to_do(walk, patterns, resolves, e);
    let g2 = |e: FileInfo| to_do(walk.passed(), patterns, resolves, e);
    assert(f2 =~= g2);
    let rest = walk.listed.skip(walk.index as int);
    lemma_filter_first(rest, f);
    assert(rest.skip(1) =~= walk.listed.skip(walk.index as int + 1));
    assert(rest[0] == walk.listed[walk.index as int]);
}

proof fn lemma_hidden(name: Seq<char>)
    ensures
        is_passed_over(name) <==> (name.len() > 0 && name[0] == '.' || name == "node_modules"@),
{
    reveal_strlit(".");
    if name.len() > 0 {
        assert(name.subrange(0, 1)[0] == name[0]);
        if name[0] == '.' {
            assert(name.subrange(0, 1) =~= "."@);
        }
    }
}

/// Whether a walk stands at one of its entries or at their end, and has asked, if
/// it has, for what a link leads to that may be of use.
pub open spec fn stands_well(walk: WalkView) -> bool {
    &&& walk.phase == WalkPhase::SkillFile ==> walk.index <= walk.listed.len()
    &&& walk.phase == WalkPhase::Entries ==> walk.index <= walk.sorted.len()
    &&& walk.asked ==> {
        let skill = walk.phase == WalkPhase::SkillFile;
        let all = if skill {
            walk.listed
        } else {
            walk.sorted
        };
        &&& walk.phase != WalkPhase::Done
        &&& walk.index < all.len()
        &&& known_kind(all[walk.index as int]) is None
        &&& skill ==> all[walk.index as int].name@ == "SKILL.md"@
        &&& !skill ==> !is_passed_over(all[walk.index as int].name@)
    }
}

proof fn lemma_asked(
    walk: WalkView,
    other: WalkView,
    patterns: Seq<PatternView>,
    resolves: spec_fn(FileInfo) -> Option<FileKind>,
)
    requires
        other == (WalkView { asked: other.asked, ..walk }),
    ensures
        yet_to_do(walk, patterns, resolves) == yet_to_do(other, patterns, resolves),
{
    let f = |e: FileInfo| to_do(walk, patterns, resolves, e);
    let g = |e: FileInfo| to_do(other, patterns, resolves, e);
    assert(f =~= g);
    let f2 = |e: FileInfo| skill_to_do(walk, patterns, resolves, e);
    let g2 = |e: FileInfo| skill_to_do(other, patterns, resolves, e);
    assert(f2 =~= g2);
}

proof fn lemma_handled(
    walk: WalkView,
    kind: Option<FileKind>,
    patterns: Seq<PatternView>,
    resolves: spec_fn(FileInfo) -> Option<FileKind>,
)
    requires
        stands_well(walk),
        walk.phase == WalkPhase::SkillFile ==> walk.index < walk.listed.len() && kind
            == kind_behind(walk.listed[walk.index as int], resolves)
            && walk.listed[walk.index as int].name@ == "SKILL.md"@,
        walk.phase == WalkPhase::Entries ==> walk.index < walk.sorted.len() && kind == kind_behind(
            walk.sorted[walk.index as int],
            resolves,
        ) && !is_passed_over(walk.sorted[walk.index as int].name@),
        walk.phase != WalkPhase::Done,
    ensures
        match walk.handled(kind, patterns) {
            Some(step) => does_the_next(
                yet_to_do(walk, patterns, resolves),
                step,
                patterns,
                resolves,
            ) && stands_well(step.0),
            None => yet_to_do(walk, patterns, resolves) == yet_to_do(
                walk.passed(),
                patterns,
                resolves,
            ),
        },
{
    if walk.phase == WalkPhase::SkillFile {
        lemma_passed_skill(walk, patterns, resolves);
        if let Some(step) = walk.handled(kind, patterns) {
            assert(yet_to_do(step.0, patterns, resolves) =~= Seq::<WalkActionView>::empty());
            assert(seq![step.1] + yet_to_do(step.0, patterns, resolves) =~= seq![step.1]);
        }
    } else {
        lemma_passed(walk, patterns, resolves);
        lemma_hidden(walk.sorted[walk.index as int].name@);
    }
}

proof fn lemma_steps(
    walk: WalkView,
    patterns: Seq<PatternView>,
    resolves: spec_fn(FileInfo) -> Option<FileKind>,
)
    requires
        stands_well(walk),
        !walk.asked,
    ensures
        does_the_next(
            yet_to_do(walk, patterns, resolves),
            walk.went_on(patterns),
            patterns,
            resolves,
        ),
        stands_well(walk.went_on(patterns).0),
    decreases
            if walk.phase == WalkPhase::SkillFile {
                2int
            } else {
                1int
            },
            if walk.phase == WalkPhase::SkillFile {
                walk.listed.len() - walk.index
            } else {
                walk.sorted.len() - walk.index
            },
{
    match walk.phase {
        WalkPhase::Done => {},
        WalkPhase::SkillFile => {
            if walk.index >= walk.listed.len() {
                let next = WalkView { phase: WalkPhase::Entries, index: 0, asked: false, ..walk };
                lemma_steps(next, patterns, resolves);
                let own = |e: FileInfo| skill_to_do(walk, patterns, resolves, e);
                let f = |e: FileInfo| to_do(walk, patterns, resolves, e);
                let g = |e: FileInfo| to_do(next, patterns, resolves, e);
                assert(f =~= g);
                assert(walk.listed.skip(walk.index as int) =~= Seq::<FileInfo>::empty());
                assert(walk.listed.skip(walk.index as int).filter_map(own).len() == 0);
                assert(walk.sorted.skip(0) =~= walk.sorted);
            } else {
                let entry = walk.listed[walk.index as int];
                lemma_passed_skill(walk, patterns, resolves);
                lemma_steps(walk.passed(), patterns, resolves);
                if entry.name@ == "SKILL.md"@ {
                    if known_kind(entry) is Some {
                        lemma_handled(walk, known_kind(entry), patterns, resolves);
                    } else {
                        lemma_asked(walk, WalkView { asked: true, ..walk }, patterns, resolves);
                    }
                }
            }
        },
        WalkPhase::Entries => {
            if walk.index < walk.sorted.len() {
                let entry = walk.sorted[walk.index as int];
                lemma_passed(walk, patterns, resolves);
                lemma_hidden(entry.name@);
                lemma_steps(walk.passed(), patterns, resolves);
                if !is_passed_over(entry.name@) {
                    if known_kind(entry) is Some {
                        lemma_handled(walk, known_kind(entry), patterns, resolves);
                    } else {
                        lemma_asked(walk, WalkView { asked: true, ..walk }, patterns, resolves);
                    }
                }
            } else {
                let f = |e: FileInfo| to_do(walk, patterns, resolves, e);
                assert(walk.sorted.skip(walk.index as int) =~= Seq::<FileInfo>::empty());
                assert(walk.sorted.skip(walk.index as int).filter_map(f) =~= Seq::<
                    WalkActionView,
                >::empty());
            }
        },
    }
}

/// A walk does all that there is to do in a directory, one after the other: it
/// loads the file that makes the directory a skill and nothing else, or goes
/// through the entries in the order of their names.
pub proof fn law_walks_do_all_there_is_to_do(
    walk: WalkView,
    patterns: Seq<PatternView>,
    resolves: spec_fn(FileInfo) -> Option<FileKind>,
    resolved: Option<FileKind>,
)
    requires
        stands_well(walk),
        walk.asked && walk.phase == WalkPhase::SkillFile ==> resolved == resolves(
            walk.listed[walk.index as int],
        ),
        walk.asked && walk.phase == WalkPhase::Entries ==> resolved == resolves(
            walk.sorted[walk.index as int],
        ),
    ensures
        does_the_next(
            yet_to_do(walk, patterns, resolves),
            walk.next(resolved, patterns),
            patterns,
            resolves,
        ),
        stands_well(walk.next(resolved, patterns).0),
{
    if walk.asked {
        lemma_handled(walk, resolved, patterns, resolves);
        lemma_steps(walk.passed(), patterns, resolves);
    } else {
        lemma_steps(walk, patterns, resolves);
    }
}

} // verus!
