//! Paths that a model writes: typographic spaces, a mark in front, and the
//! other spellings under which a file may be found.

use vstd::prelude::*;

use unicode_normalization::UnicodeNormalization;

use crate::text::{chars_of, replace_char, replace_char_text, same_text, string_of, texts};

verus! {

/// A character with typographic spaces made plain.
pub open spec fn plain_space(c: char) -> char {
    if c == '\u{a0}' || '\u{2000}' <= c <= '\u{200a}' || c == '\u{202f}' || c == '\u{205f}' || c
        == '\u{3000}' {
        ' '
    } else {
        c
    }
}

/// A path with plain spaces and without a mark in front.
pub open spec fn tool_path(path: Seq<char>) -> Seq<char> {
    let plain = path.map_values(|c: char| plain_space(c));
    if plain.len() > 0 && plain[0] == '@' {
        plain.skip(1)
    } else {
        plain
    }
}

/// A path with plain spaces and without a mark in front.
pub fn normalize_tool_path(path: &str) -> (r: String)
    ensures
        r@ == tool_path(path@),
{
    let chars: Vec<char> = chars_of(path);
    let mut plain: Vec<char> = Vec::new();
    let mut i: usize = 0;
    while i < chars.len()
        invariant
            i <= chars@.len(),
            plain@ == chars@.take(i as int).map_values(|c: char| plain_space(c)),
        decreases chars@.len() - i,
    {
        let c: char = chars[i];
        if c == '\u{a0}' || ('\u{2000}' <= c && c <= '\u{200a}') || c == '\u{202f}' || c
            == '\u{205f}' || c == '\u{3000}' {
            plain.push(' ');
        } else {
            plain.push(c);
        }
        proof {
            assert(plain@ =~= chars@.take(i + 1).map_values(|c: char| plain_space(c)));
        }
        i = i + 1;
    }
    proof {
        assert(chars@.take(chars@.len() as int) =~= chars@);
    }
    let n: usize = plain.len();
    let start: usize = if n > 0 && plain[0] == '@' {
        1
    } else {
        0
    };
    let kept: &[char] = vstd::slice::slice_subrange(plain.as_slice(), start, n);
    proof {
        assert(kept@ =~= tool_path(path@));
    }
    string_of(kept)
}

/// Whether a space before a time of day stands at the start: a space, `am` or
/// `pm`, and a full stop.
pub open spec fn time_at_start(s: Seq<char>) -> bool {
    &&& s.len() >= 4
    &&& s[0] == ' '
    &&& (s[1] == 'A' || s[1] == 'a' || s[1] == 'P' || s[1] == 'p')
    &&& (s[2] == 'M' || s[2] == 'm')
    &&& s[3] == '.'
}

/// The text with narrow spaces before times of day.
pub open spec fn with_narrow_spaces(s: Seq<char>) -> Seq<char>
    decreases s.len(),
{
    if s.len() == 0 {
        Seq::empty()
    } else if time_at_start(s) {
        seq!['\u{202f}', s[1], s[2], '.'] + with_narrow_spaces(s.skip(4))
    } else {
        seq![s[0]] + with_narrow_spaces(s.skip(1))
    }
}

/// The text with narrow spaces before times of day.
pub fn replace_time_suffix(path: &str) -> (r: String)
    ensures
        r@ == with_narrow_spaces(path@),
{
    let chars: Vec<char> = chars_of(path);
    let n: usize = chars.len();
    let mut out: String = String::new();
    let mut i: usize = 0;
    proof {
        assert(chars@.skip(0) =~= chars@);
        assert(out@ + with_narrow_spaces(chars@) =~= with_narrow_spaces(chars@));
    }
    while i < n
        invariant
            i <= n == chars@.len(),
            out@ + with_narrow_spaces(chars@.skip(i as int)) == with_narrow_spaces(chars@),
        decreases n - i,
    {
        let ghost rest = chars@.skip(i as int);
        let ghost before = out@;
        if chars[i] == ' ' && n - i > 3 && (chars[i + 1] == 'A' || chars[i + 1] == 'a' || chars[i
            + 1] == 'P' || chars[i + 1] == 'p') && (chars[i + 2] == 'M' || chars[i + 2] == 'm')
            && chars[i + 3] == '.' {
            out.push('\u{202f}');
            out.push(chars[i + 1]);
            out.push(chars[i + 2]);
            out.push('.');
            proof {
                assert(time_at_start(rest));
                assert(rest.skip(4) =~= chars@.skip(i + 4));
                assert(out@ + with_narrow_spaces(chars@.skip(i + 4)) =~= before
                    + with_narrow_spaces(rest));
            }
            i = i + 4;
        } else {
            out.push(chars[i]);
            proof {
                assert(!time_at_start(rest));
                assert(rest.skip(1) =~= chars@.skip(i + 1));
                assert(out@ + with_narrow_spaces(chars@.skip(i + 1)) =~= before
                    + with_narrow_spaces(rest));
            }
            i = i + 1;
        }
    }
    proof {
        assert(chars@.skip(n as int) =~= Seq::<char>::empty());
        assert(out@ =~= with_narrow_spaces(chars@));
    }
    out
}

/// The texts without those that stood earlier.
pub open spec fn distinct(all: Seq<Seq<char>>) -> Seq<Seq<char>>
    decreases all.len(),
{
    if all.len() == 0 {
        Seq::empty()
    } else {
        let before = distinct(all.drop_last());
        if before.contains(all.last()) {
            before
        } else {
            before.push(all.last())
        }
    }
}

/// The spellings under which a file may be found: as it is, with narrow spaces
/// before times of day, decomposed, with curly apostrophes, and both.
pub open spec fn path_spellings(resolved: Seq<char>, decomposed: Seq<char>) -> Seq<Seq<char>> {
    distinct(
        seq![
            resolved,
            with_narrow_spaces(resolved),
            decomposed,
            replace_char(resolved, '\'', "\u{2019}"@),
            replace_char(decomposed, '\'', "\u{2019}"@),
        ],
    )
}

fn add_distinct(all: &mut Vec<String>, text: String)
    ensures
        texts(final(all)@) == if texts(old(all)@).contains(text@) {
            texts(old(all)@)
        } else {
            texts(old(all)@).push(text@)
        },
{
    let ghost before = all@;
    let mut i: usize = 0;
    while i < all.len()
        invariant
            i <= all@.len(),
            all@ == before,
            forall|k: int| 0 <= k < i ==> texts(before)[k] != text@,
        decreases all@.len() - i,
    {
        if same_text(all[i].as_str(), text.as_str()) {
            proof {
                assert(texts(before)[i as int] == text@);
            }
            return;
        }
        i = i + 1;
    }
    all.push(text);
    proof {
        assert(texts(all@) =~= texts(before).push(text@));
    }
}

/// The spellings under which a file may be found, given the decomposed one.
pub fn spellings_with(resolved: &str, decomposed: &str) -> (r: Vec<String>)
    ensures
        texts(r@) == path_spellings(resolved@, decomposed@),
{
    let narrow: String = replace_time_suffix(resolved);
    let curly: String = replace_char_text(resolved, '\'', "\u{2019}");
    let curly_decomposed: String = replace_char_text(decomposed, '\'', "\u{2019}");
    let ghost all = seq![resolved@, narrow@, decomposed@, curly@, curly_decomposed@];
    let mut out: Vec<String> = Vec::new();
    proof {
        reveal_with_fuel(distinct, 6);
        assert(texts(out@) =~= Seq::<Seq<char>>::empty());
        assert(all.drop_last() =~= seq![resolved@, narrow@, decomposed@, curly@]);
        assert(all.drop_last().drop_last() =~= seq![resolved@, narrow@, decomposed@]);
        assert(all.drop_last().drop_last().drop_last() =~= seq![resolved@, narrow@]);
        assert(all.drop_last().drop_last().drop_last().drop_last() =~= seq![resolved@]);
        assert(all.drop_last().drop_last().drop_last().drop_last().drop_last() =~= Seq::<
            Seq<char>,
        >::empty());
    }
    add_distinct(&mut out, resolved.to_string());
    add_distinct(&mut out, narrow);
    add_distinct(&mut out, decomposed.to_string());
    add_distinct(&mut out, curly);
    add_distinct(&mut out, curly_decomposed);
    out
}

/// The canonical decomposition of a text.
pub uninterp spec fn nfd_form(text: Seq<char>) -> Seq<char>;

/// Calls `UnicodeNormalization::nfd` of the `unicode_normalization` crate and
/// collects what it yields: the canonical decomposition of the text, named here
/// `nfd_form`, which depends on the text alone.
#[verifier::external_body]
fn nfd(text: &str) -> (r: String)
    ensures
        r@ == nfd_form(text@),
{
    text.nfd().collect()
}

/// The spellings under which a file may be found, in the order in which they
/// are tried. The first that exists is taken, or else the path itself.
pub fn read_path_variants(resolved: &str) -> (r: Vec<String>)
    ensures
        texts(r@) == path_spellings(resolved@, nfd_form(resolved@)),
{
    let decomposed: String = nfd(resolved);
    spellings_with(resolved, decomposed.as_str())
}

/// The path to read: the first of its spellings that exists, or else the path
/// itself.
pub open spec fn existing_path(
    spellings: Seq<Seq<char>>,
    exists: Seq<bool>,
    resolved: Seq<char>,
    from: int,
) -> Seq<char>
    decreases spellings.len() - from,
{
    if from < 0 || from >= spellings.len() || from >= exists.len() {
        resolved
    } else if exists[from] {
        spellings[from]
    } else {
        existing_path(spellings, exists, resolved, from + 1)
    }
}

/// The path to read, from which of its spellings exist.
pub fn choose_read_path(variants: &Vec<String>, exists: &Vec<bool>, resolved: &str) -> (r: String)
    ensures
        r@ == existing_path(texts(variants@), exists@, resolved@, 0),
{
    let mut i: usize = 0;
    while i < variants.len() && i < exists.len()
        invariant
            i <= variants@.len(),
            i <= exists@.len(),
            existing_path(texts(variants@), exists@, resolved@, 0) == existing_path(
                texts(variants@),
                exists@,
                resolved@,
                i as int,
            ),
        decreases variants@.len() - i,
    {
        if exists[i] {
            return variants[i].clone();
        }
        i = i + 1;
    }
    resolved.to_string()
}

/// No spelling is tried twice, and the path itself is tried first.
pub proof fn law_spellings_are_distinct(resolved: Seq<char>, decomposed: Seq<char>)
    ensures
        path_spellings(resolved, decomposed).len() > 0,
        path_spellings(resolved, decomposed)[0] == resolved,
        path_spellings(resolved, decomposed).no_duplicates(),
{
    let all = seq![
        resolved,
        with_narrow_spaces(resolved),
        decomposed,
        replace_char(resolved, '\'', "\u{2019}"@),
        replace_char(decomposed, '\'', "\u{2019}"@),
    ];
    lemma_distinct(all);
}

proof fn lemma_distinct(all: Seq<Seq<char>>)
    ensures
        distinct(all).no_duplicates(),
        all.len() > 0 ==> distinct(all).len() > 0 && distinct(all)[0] == all[0],
    decreases all.len(),
{
    if all.len() > 0 {
        lemma_distinct(all.drop_last());
    }
}

} // verus!
