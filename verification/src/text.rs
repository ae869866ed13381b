//! Text primitives: strings as sequences of characters, their UTF-8 length,
//! decimal rendering, searching, splitting, joining and replacing.

use vstd::prelude::*;
use vstd::string::*;
use vstd::utf8::{
    encode_scalar, encode_utf8, encode_utf8_decode_utf8, has_width_1_encoding, has_width_2_encoding,
    has_width_3_encoding,
};

verus! {

/// `String::push`: appends one character to the end of the string.
pub assume_specification[ String::push ](s: &mut String, c: char)
    ensures
        final(s)@ == old(s)@.push(c),
;

/// The characters of a string.
pub fn chars_of(s: &str) -> (r: Vec<char>)
    ensures
        r@ == s@,
{
    let mut out: Vec<char> = Vec::new();
    for c in it: s.chars()
        invariant
            out@ == it.seq().take(it.index() as int),
            it.seq() == s@,
    {
        proof {
            assert(it.seq().take(it.index() as int + 1) =~= it.seq().take(it.index() as int).push(c));
        }
        out.push(c);
    }
    proof {
        assert(s@.take(s@.len() as int) =~= s@);
    }
    out
}

/// The string made of the given characters.
pub fn string_of(chars: &[char]) -> (r: String)
    ensures
        r@ == chars@,
{
    let mut out: String = String::new();
    let mut i: usize = 0;
    while i < chars.len()
        invariant
            i <= chars@.len(),
            out@ == chars@.take(i as int),
        decreases chars@.len() - i,
    {
        proof {
            assert(chars@.take(i as int + 1) =~= chars@.take(i as int).push(chars@[i as int]));
        }
        out.push(chars[i]);
        i = i + 1;
    }
    proof {
        assert(chars@.take(chars@.len() as int) =~= chars@);
    }
    out
}

/// Whether two strings hold the same characters.
pub fn same_text(a: &str, b: &str) -> (r: bool)
    ensures
        r == (a@ == b@),
{
    let x: &[u8] = a.as_bytes();
    let y: &[u8] = b.as_bytes();
    proof {
        encode_utf8_decode_utf8(a@);
        encode_utf8_decode_utf8(b@);
    }
    if x.len() != y.len() {
        return false;
    }
    let mut i: usize = 0;
    while i < x.len()
        invariant
            i <= x@.len(),
            x@.len() == y@.len(),
            x@ == encode_utf8(a@),
            y@ == encode_utf8(b@),
            forall|k: int| 0 <= k < i ==> x@[k] == y@[k],
        decreases x@.len() - i,
    {
        if x[i] != y[i] {
            return false;
        }
        i = i + 1;
    }
    proof {
        assert(x@ =~= y@);
    }
    true
}

/// Whether two optional strings are both absent or hold the same characters.
pub fn same_optional_text(a: &Option<String>, b: &Option<String>) -> (r: bool)
    ensures
        r == (text_of_option(*a) == text_of_option(*b)),
{
    match (a, b) {
        (Some(x), Some(y)) => *x == *y,
        (None, None) => true,
        _ => false,
    }
}

/// The characters of an optional string.
pub open spec fn text_of_option(s: Option<String>) -> Option<Seq<char>> {
    match s {
        Some(t) => Some(t@),
        None => None,
    }
}

/// The characters of each string of a sequence.
pub open spec fn texts(s: Seq<String>) -> Seq<Seq<char>> {
    Seq::new(s.len(), |i: int| s[i]@)
}

// ---------------------------------------------------------------------------
// UTF-8 length
// ---------------------------------------------------------------------------

/// The number of bytes of one character in UTF-8.
pub open spec fn char_width(c: char) -> nat {
    if has_width_1_encoding(c as u32) {
        1
    } else if has_width_2_encoding(c as u32) {
        2
    } else if has_width_3_encoding(c as u32) {
        3
    } else {
        4
    }
}

/// The number of bytes of a text in UTF-8.
pub open spec fn byte_len(s: Seq<char>) -> nat
    decreases s.len(),
{
    if s.len() == 0 {
        0
    } else {
        char_width(s[0]) + byte_len(s.drop_first())
    }
}

pub proof fn lemma_byte_len_is_encoded_len(s: Seq<char>)
    ensures
        encode_utf8(s).len() == byte_len(s),
    decreases s.len(),
{
    if s.len() > 0 {
        lemma_byte_len_is_encoded_len(s.drop_first());
        assert(encode_scalar(s[0] as u32).len() == char_width(s[0]));
    }
}

pub proof fn lemma_byte_len_concat(a: Seq<char>, b: Seq<char>)
    ensures
        byte_len(a + b) == byte_len(a) + byte_len(b),
    decreases a.len(),
{
    if a.len() == 0 {
        assert(a + b =~= b);
    } else {
        assert((a + b).drop_first() =~= a.drop_first() + b);
        lemma_byte_len_concat(a.drop_first(), b);
    }
}

pub proof fn lemma_byte_len_push(s: Seq<char>, c: char)
    ensures
        byte_len(s.push(c)) == byte_len(s) + char_width(c),
{
    reveal_with_fuel(byte_len, 2);
    assert(s.push(c) =~= s + seq![c]);
    assert(seq![c].drop_first() =~= Seq::<char>::empty());
    lemma_byte_len_concat(s, seq![c]);
}

pub proof fn lemma_byte_len_split(s: Seq<char>, i: int)
    requires
        0 <= i <= s.len(),
    ensures
        byte_len(s) == byte_len(s.take(i)) + byte_len(s.skip(i)),
{
    lemma_byte_len_concat(s.take(i), s.skip(i));
    assert(s.take(i) + s.skip(i) =~= s);
}

pub proof fn lemma_byte_len_bounds(s: Seq<char>)
    ensures
        s.len() <= byte_len(s) <= 4 * s.len(),
    decreases s.len(),
{
    if s.len() > 0 {
        lemma_byte_len_bounds(s.drop_first());
    }
}

/// The number of bytes of a string.
pub fn utf8_len(s: &str) -> (r: usize)
    ensures
        r == byte_len(s@),
{
    proof {
        lemma_byte_len_is_encoded_len(s@);
    }
    s.as_bytes().len()
}

/// The number of bytes of one character.
pub fn char_utf8_len(c: char) -> (r: usize)
    ensures
        r == char_width(c),
{
    let code: u32 = c as u32;
    if code <= 0x7f {
        1
    } else if code <= 0x7ff {
        2
    } else if code <= 0xffff {
        3
    } else {
        4
    }
}

/// The character position at which a text has used `bytes` bytes.
pub open spec fn cut_at(text: Seq<char>, bytes: nat) -> Option<int>
    decreases text.len(),
{
    if byte_len(text) == bytes {
        Some(text.len() as int)
    } else if text.len() == 0 {
        None
    } else {
        cut_at(text.drop_last(), bytes)
    }
}

/// A position at which a text has used `bytes` bytes is the only one.
pub proof fn lemma_cut_at(text: Seq<char>, bytes: nat, k: int)
    requires
        0 <= k <= text.len(),
        byte_len(text.take(k)) == bytes,
        forall|j: int| k < j <= text.len() ==> #[trigger] byte_len(text.take(j)) != bytes,
    ensures
        cut_at(text, bytes) == Some(k),
    decreases text.len(),
{
    assert(text.take(text.len() as int) =~= text);
    if k < text.len() {
        assert(byte_len(text.take(text.len() as int)) != bytes);
        let shorter = text.drop_last();
        assert(shorter.take(k) =~= text.take(k));
        assert forall|j: int| k < j <= shorter.len() implies #[trigger] byte_len(shorter.take(j))
            != bytes by {
            assert(shorter.take(j) =~= text.take(j));
        }
        lemma_cut_at(shorter, bytes, k);
    }
}

/// Without such a position there is none.
pub proof fn lemma_no_cut(text: Seq<char>, bytes: nat)
    requires
        forall|j: int| 0 <= j <= text.len() ==> #[trigger] byte_len(text.take(j)) != bytes,
    ensures
        cut_at(text, bytes) is None,
    decreases text.len(),
{
    assert(text.take(text.len() as int) =~= text);
    if text.len() > 0 {
        let shorter = text.drop_last();
        assert forall|j: int| 0 <= j <= shorter.len() implies #[trigger] byte_len(shorter.take(j))
            != bytes by {
            assert(shorter.take(j) =~= text.take(j));
        }
        lemma_no_cut(shorter, bytes);
    }
}

/// A longer front part takes more bytes.
pub proof fn lemma_byte_len_grows(text: Seq<char>, i: int, j: int)
    requires
        0 <= i < j <= text.len(),
    ensures
        byte_len(text.take(i)) < byte_len(text.take(j)),
{
    let longer = text.take(j);
    lemma_byte_len_split(longer, i);
    assert(longer.take(i) =~= text.take(i));
    lemma_byte_len_bounds(longer.skip(i));
}

/// The character position at which a text has used `bytes` bytes.
pub fn find_cut(text: &str, bytes: usize) -> (r: Option<usize>)
    ensures
        match r {
            Some(k) => cut_at(text@, bytes as nat) == Some(k as int) && k <= text@.len()
                && byte_len(text@.take(k as int)) == bytes,
            None => cut_at(text@, bytes as nat) is None,
        },
{
    let chars: Vec<char> = chars_of(text);
    let mut used: usize = 0;
    let mut k: usize = 0;
    proof {
        assert(chars@.take(0) =~= Seq::<char>::empty());
    }
    while k < chars.len() && used < bytes
        invariant
            k <= chars@.len(),
            chars@ == text@,
            used == byte_len(chars@.take(k as int)),
            used <= bytes,
            forall|j: int|
                0 <= j < k ==> #[trigger] byte_len(chars@.take(j)) < bytes,
        decreases chars@.len() - k,
    {
        let width: usize = char_utf8_len(chars[k]);
        proof {
            assert(chars@.take(k as int + 1) =~= chars@.take(k as int).push(chars@[k as int]));
            lemma_byte_len_push(chars@.take(k as int), chars@[k as int]);
        }
        if width > bytes - used {
            proof {
                assert forall|j: int| 0 <= j <= chars@.len() implies #[trigger] byte_len(
                    chars@.take(j),
                ) != bytes by {
                    if j > k as int + 1 {
                        lemma_byte_len_grows(chars@, k as int + 1, j);
                    }
                }
                lemma_no_cut(text@, bytes as nat);
            }
            return None;
        }
        used = used + width;
        k = k + 1;
    }
    if used == bytes {
        proof {
            assert forall|j: int| k < j <= text@.len() implies #[trigger] byte_len(text@.take(j))
                != bytes by {
                lemma_byte_len_grows(text@, k as int, j);
            }
            lemma_cut_at(text@, bytes as nat, k as int);
        }
        Some(k)
    } else {
        proof {
            assert(k == chars@.len());
            lemma_no_cut(text@, bytes as nat);
        }
        None
    }
}

// ---------------------------------------------------------------------------
// Decimal numbers
// ---------------------------------------------------------------------------

/// The decimal digit of a number below ten.
pub open spec fn digit(n: nat) -> char {
    (('0' as u32) + n) as char
}

/// The decimal notation of a number.
pub open spec fn decimal(n: nat) -> Seq<char>
    decreases n,
{
    if n < 10 {
        seq![digit(n)]
    } else {
        decimal(n / 10).push(digit(n % 10))
    }
}

/// The decimal notation of an integer, with a leading minus sign when negative.
pub open spec fn signed_decimal(i: int) -> Seq<char> {
    if i < 0 {
        seq!['-'] + decimal((-i) as nat)
    } else {
        decimal(i as nat)
    }
}

fn digit_char(n: u64) -> (r: char)
    requires
        n < 10,
    ensures
        r == digit(n as nat),
{
    (48u8 + n as u8) as char
}

/// The decimal notation of an unsigned number of any width.
pub fn wide_decimal_text(n: u128) -> (r: String)
    ensures
        r@ == decimal(n as nat),
    decreases n,
{
    if n < 10 {
        let mut s: String = String::new();
        s.push(digit_char(n as u64));
        proof {
            assert(s@ =~= seq![digit(n as nat)]);
        }
        s
    } else {
        let mut s: String = wide_decimal_text(n / 10);
        s.push(digit_char((n % 10) as u64));
        s
    }
}

/// The decimal notation of an unsigned number.
pub fn decimal_text(n: u64) -> (r: String)
    ensures
        r@ == decimal(n as nat),
{
    wide_decimal_text(n as u128)
}

/// The decimal notation of a signed number.
pub fn signed_decimal_text(i: i64) -> (r: String)
    ensures
        r@ == signed_decimal(i as int),
{
    if i < 0 {
        let magnitude: u64 = if i == i64::MIN {
            0x8000_0000_0000_0000u64
        } else {
            (-i) as u64
        };
        proof {
            reveal_strlit("-");
            assert("-"@ =~= seq!['-']);
        }
        concat2("-", decimal_text(magnitude).as_str())
    } else {
        decimal_text(i as u64)
    }
}

// ---------------------------------------------------------------------------
// Concatenation
// ---------------------------------------------------------------------------

/// Two texts, one after the other.
pub fn concat2(a: &str, b: &str) -> (r: String)
    ensures
        r@ == a@ + b@,
{
    let mut s: String = a.to_owned();
    s.append(b);
    s
}

/// Three texts, one after the other.
pub fn concat3(a: &str, b: &str, c: &str) -> (r: String)
    ensures
        r@ == a@ + b@ + c@,
{
    let mut s: String = a.to_owned();
    s.append(b);
    s.append(c);
    s
}

/// Four texts, one after the other.
pub fn concat4(a: &str, b: &str, c: &str, d: &str) -> (r: String)
    ensures
        r@ == a@ + b@ + c@ + d@,
{
    let mut s: String = concat3(a, b, c);
    s.append(d);
    s
}

/// Five texts, one after the other.
pub fn concat5(a: &str, b: &str, c: &str, d: &str, e: &str) -> (r: String)
    ensures
        r@ == a@ + b@ + c@ + d@ + e@,
{
    let mut s: String = concat4(a, b, c, d);
    s.append(e);
    s
}

/// The texts of a sequence with a separator between neighbours.
pub open spec fn join(parts: Seq<Seq<char>>, sep: Seq<char>) -> Seq<char>
    decreases parts.len(),
{
    if parts.len() == 0 {
        Seq::empty()
    } else if parts.len() == 1 {
        parts[0]
    } else {
        join(parts.drop_last(), sep) + sep + parts.last()
    }
}

/// The strings of a slice with a separator between neighbours.
pub fn join_texts(parts: &[String], sep: &str) -> (r: String)
    ensures
        r@ == join(texts(parts@), sep@),
{
    let mut out: String = String::new();
    let mut i: usize = 0;
    while i < parts.len()
        invariant
            i <= parts@.len(),
            out@ == join(texts(parts@.take(i as int)), sep@),
        decreases parts@.len() - i,
    {
        proof {
            let before = texts(parts@.take(i as int));
            let after = texts(parts@.take(i as int + 1));
            assert(after.drop_last() =~= before);
            assert(after.last() == parts@[i as int]@);
            if i == 0 {
                assert(before =~= Seq::<Seq<char>>::empty());
                assert(after.len() == 1);
                assert(out@ + after[0] =~= after[0]);
            }
        }
        if i > 0 {
            out.append(sep);
        }
        out.append(parts[i].as_str());
        i = i + 1;
    }
    proof {
        assert(parts@.take(parts@.len() as int) =~= parts@);
    }
    out
}

// ---------------------------------------------------------------------------
// Searching
// ---------------------------------------------------------------------------

/// Whether `needle` stands in `hay` at position `i`.
pub open spec fn matches_at(hay: Seq<char>, i: int, needle: Seq<char>) -> bool {
    0 <= i && i + needle.len() <= hay.len() && hay.subrange(i, i + needle.len()) == needle
}

/// The first position, not before `from`, at which `needle` stands in `hay`.
pub open spec fn first_match(hay: Seq<char>, needle: Seq<char>, from: int) -> Option<int>
    decreases hay.len() + 1 - from,
{
    if from < 0 || from + needle.len() > hay.len() {
        None
    } else if matches_at(hay, from, needle) {
        Some(from)
    } else {
        first_match(hay, needle, from + 1)
    }
}

/// Whether `needle` occurs in `hay`.
pub open spec fn occurs_in(hay: Seq<char>, needle: Seq<char>) -> bool {
    exists|i: int| matches_at(hay, i, needle)
}

/// `first_match` is the least position of a match.
pub proof fn lemma_first_match(hay: Seq<char>, needle: Seq<char>, from: int)
    requires
        0 <= from,
    ensures
        match first_match(hay, needle, from) {
            Some(i) => from <= i && matches_at(hay, i, needle) && forall|j: int|
                from <= j < i ==> !matches_at(hay, j, needle),
            None => forall|j: int| from <= j ==> !matches_at(hay, j, needle),
        },
    decreases hay.len() + 1 - from,
{
    if from + needle.len() > hay.len() {
    } else if matches_at(hay, from, needle) {
    } else {
        lemma_first_match(hay, needle, from + 1);
    }
}

/// Whether `needle` stands in `hay` at position `i`.
pub fn stands_at(hay: &[char], i: usize, needle: &[char]) -> (r: bool)
    requires
        i <= hay@.len(),
    ensures
        r == matches_at(hay@, i as int, needle@),
{
    if needle.len() > hay.len() - i {
        return false;
    }
    let mut k: usize = 0;
    while k < needle.len()
        invariant
            k <= needle@.len(),
            i + needle@.len() <= hay@.len() == hay.len(),
            forall|j: int| 0 <= j < k ==> hay@[i + j] == needle@[j],
        decreases needle@.len() - k,
    {
        if hay[i + k] != needle[k] {
            proof {
                assert(hay@.subrange(i as int, i + needle@.len())[k as int] != needle@[k as int]);
            }
            return false;
        }
        k = k + 1;
    }
    proof {
        assert(hay@.subrange(i as int, i + needle@.len()) =~= needle@);
    }
    true
}

/// The first position, not before `from`, at which `needle` stands in `hay`.
pub fn find_from(hay: &[char], needle: &[char], from: usize) -> (r: Option<usize>)
    requires
        from <= hay@.len(),
    ensures
        match r {
            Some(i) => first_match(hay@, needle@, from as int) == Some(i as int),
            None => first_match(hay@, needle@, from as int) is None,
        },
{
    if needle.len() > hay.len() {
        return None;
    }
    let last: usize = hay.len() - needle.len();
    let mut i: usize = from;
    while i <= last
        invariant
            from <= i <= hay@.len(),
            last == hay@.len() - needle@.len(),
            first_match(hay@, needle@, from as int) == first_match(hay@, needle@, i as int),
        decreases last + 1 - i,
    {
        if stands_at(hay, i, needle) {
            return Some(i);
        }
        if i == last {
            proof {
                assert(first_match(hay@, needle@, i as int + 1) is None);
            }
            return None;
        }
        i = i + 1;
    }
    None
}

/// Whether `needle` occurs in `hay`.
pub fn contains_text(hay: &str, needle: &str) -> (r: bool)
    ensures
        r == occurs_in(hay@, needle@),
{
    let h: Vec<char> = chars_of(hay);
    let n: Vec<char> = chars_of(needle);
    proof {
        lemma_first_match(hay@, needle@, 0);
    }
    match find_from(h.as_slice(), n.as_slice(), 0) {
        Some(_) => true,
        None => {
            proof {
                assert forall|i: int| !matches_at(hay@, i, needle@) by {
                    if i >= 0 {
                    }
                }
            }
            false
        },
    }
}

/// Whether a text begins with a prefix.
pub open spec fn begins_with(s: Seq<char>, prefix: Seq<char>) -> bool {
    matches_at(s, 0, prefix)
}

/// Whether a text ends with a suffix.
pub open spec fn finishes_with(s: Seq<char>, suffix: Seq<char>) -> bool {
    matches_at(s, s.len() - suffix.len(), suffix)
}

/// Whether a string begins with a prefix.
pub fn has_prefix(s: &str, prefix: &str) -> (r: bool)
    ensures
        r == begins_with(s@, prefix@),
{
    let h: Vec<char> = chars_of(s);
    let n: Vec<char> = chars_of(prefix);
    stands_at(h.as_slice(), 0, n.as_slice())
}

/// Whether a string ends with a suffix.
pub fn has_suffix(s: &str, suffix: &str) -> (r: bool)
    ensures
        r == finishes_with(s@, suffix@),
{
    let h: Vec<char> = chars_of(s);
    let n: Vec<char> = chars_of(suffix);
    if n.len() > h.len() {
        return false;
    }
    stands_at(h.as_slice(), h.len() - n.len(), n.as_slice())
}

/// The part of a string from one character position to another.
pub fn substring(s: &str, from: usize, to: usize) -> (r: String)
    requires
        from <= to <= s@.len(),
    ensures
        r@ == s@.subrange(from as int, to as int),
{
    s.substring_char(from, to).to_owned()
}

// ---------------------------------------------------------------------------
// Splitting
// ---------------------------------------------------------------------------

/// The pieces of a text between occurrences of a separator character.
pub open spec fn split(s: Seq<char>, sep: char) -> Seq<Seq<char>>
    decreases s.len(),
{
    if s.len() == 0 {
        seq![Seq::empty()]
    } else {
        let before = split(s.drop_last(), sep);
        if s.last() == sep {
            before.push(Seq::empty())
        } else {
            before.drop_last().push(before.last().push(s.last()))
        }
    }
}

pub proof fn lemma_split_nonempty(s: Seq<char>, sep: char)
    ensures
        split(s, sep).len() >= 1,
    decreases s.len(),
{
    if s.len() > 0 {
        lemma_split_nonempty(s.drop_last(), sep);
    }
}

/// Joining the pieces of a split with the separator gives the text back.
pub proof fn law_join_undoes_split(s: Seq<char>, sep: char)
    ensures
        join(split(s, sep), seq![sep]) == s,
    decreases s.len(),
{
    lemma_split_nonempty(s, sep);
    if s.len() == 0 {
        assert(split(s, sep) =~= seq![Seq::<char>::empty()]);
        assert(s =~= Seq::<char>::empty());
    } else {
        let init = s.drop_last();
        let before = split(init, sep);
        lemma_split_nonempty(init, sep);
        law_join_undoes_split(init, sep);
        let now = split(s, sep);
        if s.last() == sep {
            assert(now.drop_last() =~= before);
            assert(join(now, seq![sep]) =~= init + seq![sep] + Seq::empty());
            assert(init + seq![sep] + Seq::<char>::empty() =~= s);
        } else {
            assert(now.drop_last() =~= before.drop_last());
            if before.len() == 1 {
                assert(now.len() == 1);
                assert(join(now, seq![sep]) =~= before[0].push(s.last()));
                assert(before[0] == init);
            } else {
                assert(join(now, seq![sep]) =~= join(before.drop_last(), seq![sep]) + seq![sep]
                    + before.last().push(s.last()));
                assert(init =~= join(before.drop_last(), seq![sep]) + seq![sep] + before.last());
            }
            assert(join(now, seq![sep]) =~= init.push(s.last()));
            assert(init.push(s.last()) =~= s);
        }
    }
}

/// No piece of a split holds the separator.
pub proof fn lemma_split_pieces(s: Seq<char>, sep: char)
    ensures
        forall|i: int| 0 <= i < split(s, sep).len() ==> !(#[trigger] split(s, sep)[i]).contains(sep),
    decreases s.len(),
{
    if s.len() > 0 {
        lemma_split_pieces(s.drop_last(), sep);
        lemma_split_nonempty(s.drop_last(), sep);
        let before = split(s.drop_last(), sep);
        assert forall|i: int| 0 <= i < split(s, sep).len() implies !(#[trigger] split(
            s,
            sep,
        )[i]).contains(sep) by {
            if s.last() != sep && i == before.len() - 1 {
                let piece = split(s, sep)[i];
                assert(!before[i].contains(sep));
                assert forall|k: int| 0 <= k < piece.len() implies piece[k] != sep by {
                    if k < before[i].len() {
                        assert(before[i].contains(before[i][k]));
                    }
                }
            } else if i < before.len() {
                assert(!before[i].contains(sep));
            }
        }
    }
}

/// The pieces of a string between occurrences of a separator character.
pub fn split_text(s: &str, sep: char) -> (r: Vec<String>)
    ensures
        texts(r@) == split(s@, sep),
        r@.len() >= 1,
{
    let chars: Vec<char> = chars_of(s);
    let mut done: Vec<String> = Vec::new();
    let mut piece: String = String::new();
    let mut i: usize = 0;
    proof {
        assert(texts(done@).push(piece@) =~= seq![Seq::<char>::empty()]);
        assert(chars@.take(0) =~= Seq::<char>::empty());
    }
    while i < chars.len()
        invariant
            i <= chars@.len(),
            texts(done@).push(piece@) == split(chars@.take(i as int), sep),
        decreases chars@.len() - i,
    {
        let c: char = chars[i];
        let ghost before = split(chars@.take(i as int), sep);
        let ghost old_done = done@;
        let ghost old_piece = piece@;
        proof {
            assert(chars@.take(i as int + 1).drop_last() =~= chars@.take(i as int));
            assert(before.drop_last() =~= texts(done@));
            assert(before.last() == piece@);
        }
        if c == sep {
            done.push(piece);
            piece = String::new();
            proof {
                assert(texts(done@) =~= texts(old_done).push(old_piece));
                assert(texts(done@).push(piece@) =~= before.push(Seq::empty()));
            }
        } else {
            piece.push(c);
            proof {
                assert(texts(done@).push(piece@) =~= before.drop_last().push(before.last().push(c)));
            }
        }
        i = i + 1;
    }
    proof {
        assert(chars@.take(chars@.len() as int) =~= chars@);
        assert(texts(done@.push(piece)) =~= texts(done@).push(piece@));
    }
    done.push(piece);
    done
}

// ---------------------------------------------------------------------------
// Replacing
// ---------------------------------------------------------------------------

/// The text with every occurrence of a character replaced by another text.
pub open spec fn replace_char(s: Seq<char>, from: char, to: Seq<char>) -> Seq<char>
    decreases s.len(),
{
    if s.len() == 0 {
        Seq::empty()
    } else if s.last() == from {
        replace_char(s.drop_last(), from, to) + to
    } else {
        replace_char(s.drop_last(), from, to).push(s.last())
    }
}

/// The text with each occurrence of `pattern`, taken from left to right
/// without overlap, replaced by `to`. The empty pattern replaces nothing.
pub open spec fn replace_all(s: Seq<char>, pattern: Seq<char>, to: Seq<char>) -> Seq<char>
    decreases s.len(),
    via replace_all_decreases
{
    match first_match(s, pattern, 0) {
        Some(i) => if pattern.len() == 0 {
            s
        } else {
            s.take(i) + to + replace_all(s.skip(i + pattern.len()), pattern, to)
        },
        None => s,
    }
}

#[via_fn]
proof fn replace_all_decreases(s: Seq<char>, pattern: Seq<char>, to: Seq<char>) {
    lemma_first_match(s, pattern, 0);
}

/// The string with every occurrence of a character replaced by another text.
pub fn replace_char_text(s: &str, from: char, to: &str) -> (r: String)
    ensures
        r@ == replace_char(s@, from, to@),
{
    let chars: Vec<char> = chars_of(s);
    let mut out: String = String::new();
    let mut i: usize = 0;
    proof {
        assert(chars@.take(0) =~= Seq::<char>::empty());
    }
    while i < chars.len()
        invariant
            i <= chars@.len(),
            out@ == replace_char(chars@.take(i as int), from, to@),
        decreases chars@.len() - i,
    {
        proof {
            assert(chars@.take(i as int + 1).drop_last() =~= chars@.take(i as int));
        }
        if chars[i] == from {
            out.append(to);
        } else {
            out.push(chars[i]);
        }
        i = i + 1;
    }
    proof {
        assert(chars@.take(chars@.len() as int) =~= chars@);
    }
    out
}

fn push_range(out: &mut String, chars: &[char], from: usize, to: usize)
    requires
        from <= to <= chars@.len(),
    ensures
        final(out)@ == old(out)@ + chars@.subrange(from as int, to as int),
{
    let mut i: usize = from;
    let ghost start = out@;
    proof {
        assert(start + chars@.subrange(from as int, from as int) =~= start);
    }
    while i < to
        invariant
            from <= i <= to <= chars@.len(),
            out@ == start + chars@.subrange(from as int, i as int),
        decreases to - i,
    {
        proof {
            assert(start + chars@.subrange(from as int, i as int + 1) =~= (start + chars@.subrange(
                from as int,
                i as int,
            )).push(chars@[i as int]));
        }
        out.push(chars[i]);
        i = i + 1;
    }
}

/// The string with each occurrence of `pattern` replaced by `to`.
pub fn replace_all_text(s: &str, pattern: &str, to: &str) -> (r: String)
    requires
        pattern@.len() > 0,
    ensures
        r@ == replace_all(s@, pattern@, to@),
{
    let chars: Vec<char> = chars_of(s);
    let pat: Vec<char> = chars_of(pattern);
    let mut out: String = String::new();
    let mut start: usize = 0;
    proof {
        assert(chars@.skip(0) =~= chars@);
        assert(out@ + replace_all(chars@, pat@, to@) =~= replace_all(chars@, pat@, to@));
    }
    loop
        invariant
            start <= chars@.len(),
            pat@.len() > 0,
            out@ + replace_all(chars@.skip(start as int), pat@, to@) == replace_all(chars@, pat@, to@),
        ensures
            start <= chars@.len(),
            out@ + chars@.skip(start as int) == replace_all(chars@, pat@, to@),
        decreases chars@.len() - start,
    {
        let rest: &[char] = vstd::slice::slice_subrange(chars.as_slice(), start, chars.len());
        proof {
            assert(rest@ =~= chars@.skip(start as int));
            lemma_first_match(rest@, pat@, 0);
        }
        match find_from(rest, pat.as_slice(), 0) {
            None => {
                break;
            },
            Some(i) => {
                let ghost before = out@;
                push_range(&mut out, chars.as_slice(), start, start + i);
                out.append(to);
                proof {
                    assert(chars@.subrange(start as int, start + i) =~= rest@.take(i as int));
                    assert(rest@.skip(i + pat@.len()) =~= chars@.skip(start + i + pat@.len()));
                    let tail = replace_all(rest@.skip(i + pat@.len()), pat@, to@);
                    assert(before + (rest@.take(i as int) + to@ + tail) =~= (before + rest@.take(i as int)
                        + to@) + tail);
                }
                start = start + i + pat.len();
            },
        }
    }
    push_range(&mut out, chars.as_slice(), start, chars.len());
    proof {
        assert(chars@.subrange(start as int, chars@.len() as int) =~= chars@.skip(start as int));
    }
    out
}

// ---------------------------------------------------------------------------
// Trimming
// ---------------------------------------------------------------------------

/// The Unicode White_Space characters.
pub open spec fn is_space(c: char) -> bool {
    ||| '\u{9}' <= c <= '\u{d}'
    ||| c == ' '
    ||| c == '\u{85}'
    ||| c == '\u{a0}'
    ||| c == '\u{1680}'
    ||| '\u{2000}' <= c <= '\u{200a}'
    ||| c == '\u{2028}'
    ||| c == '\u{2029}'
    ||| c == '\u{202f}'
    ||| c == '\u{205f}'
    ||| c == '\u{3000}'
}

/// The text without the trailing characters that satisfy a predicate.
pub open spec fn trim_end(s: Seq<char>, drop: spec_fn(char) -> bool) -> Seq<char>
    decreases s.len(),
{
    if s.len() > 0 && drop(s.last()) {
        trim_end(s.drop_last(), drop)
    } else {
        s
    }
}

/// The text without the leading characters that satisfy a predicate.
pub open spec fn trim_start(s: Seq<char>, drop: spec_fn(char) -> bool) -> Seq<char>
    decreases s.len(),
{
    if s.len() > 0 && drop(s[0]) {
        trim_start(s.drop_first(), drop)
    } else {
        s
    }
}

/// The text without leading and trailing white space.
pub open spec fn trim(s: Seq<char>) -> Seq<char> {
    trim_end(trim_start(s, |c: char| is_space(c)), |c: char| is_space(c))
}

/// Whether a character is white space.
pub fn is_space_char(c: char) -> (r: bool)
    ensures
        r == is_space(c),
{
    ('\u{9}' <= c && c <= '\u{d}') || c == ' ' || c == '\u{85}' || c == '\u{a0}' || c == '\u{1680}'
        || ('\u{2000}' <= c && c <= '\u{200a}') || c == '\u{2028}' || c == '\u{2029}'
        || c == '\u{202f}' || c == '\u{205f}' || c == '\u{3000}'
}

/// The string without the trailing characters that are in `set`.
pub fn trim_end_of(s: &str, set: &[char]) -> (r: String)
    ensures
        r@ == trim_end(s@, |c: char| set@.contains(c)),
{
    let chars: Vec<char> = chars_of(s);
    let mut end: usize = chars.len();
    proof {
        assert(chars@.take(chars@.len() as int) =~= chars@);
    }
    while end > 0
        invariant_except_break
            end <= chars@.len(),
            trim_end(chars@.take(end as int), |c: char| set@.contains(c)) == trim_end(
                chars@,
                |c: char| set@.contains(c),
            ),
        ensures
            end <= chars@.len(),
            chars@.take(end as int) == trim_end(chars@, |c: char| set@.contains(c)),
        decreases end,
    {
        proof {
            assert(chars@.take(end as int).drop_last() =~= chars@.take(end as int - 1));
        }
        if !char_in(chars[end - 1], set) {
            break;
        }
        end = end - 1;
    }
    let kept: &[char] = vstd::slice::slice_subrange(chars.as_slice(), 0, end);
    proof {
        assert(kept@ =~= chars@.take(end as int));
    }
    string_of(kept)
}

/// The string without the leading characters equal to `drop`.
pub fn trim_start_of(s: &str, drop: char) -> (r: String)
    ensures
        r@ == trim_start(s@, |c: char| c == drop),
{
    let chars: Vec<char> = chars_of(s);
    let mut start: usize = 0;
    proof {
        assert(chars@.skip(0) =~= chars@);
    }
    while start < chars.len()
        invariant_except_break
            start <= chars@.len(),
            trim_start(chars@.skip(start as int), |c: char| c == drop) == trim_start(
                chars@,
                |c: char| c == drop,
            ),
        ensures
            start <= chars@.len(),
            chars@.skip(start as int) == trim_start(chars@, |c: char| c == drop),
        decreases chars@.len() - start,
    {
        proof {
            assert(chars@.skip(start as int).drop_first() =~= chars@.skip(start as int + 1));
        }
        if chars[start] != drop {
            break;
        }
        start = start + 1;
    }
    let kept: &[char] = vstd::slice::slice_subrange(chars.as_slice(), start, chars.len());
    proof {
        assert(kept@ =~= chars@.skip(start as int));
    }
    string_of(kept)
}

/// Whether a character is one of a set.
pub fn char_in(c: char, set: &[char]) -> (r: bool)
    ensures
        r == set@.contains(c),
{
    let mut i: usize = 0;
    while i < set.len()
        invariant
            i <= set@.len(),
            forall|k: int| 0 <= k < i ==> set@[k] != c,
        decreases set@.len() - i,
    {
        if set[i] == c {
            return true;
        }
        i = i + 1;
    }
    false
}

/// The string without leading and trailing white space.
pub fn trim_text(s: &str) -> (r: String)
    ensures
        r@ == trim(s@),
{
    let chars: Vec<char> = chars_of(s);
    let ghost space = |c: char| is_space(c);
    let mut start: usize = 0;
    proof {
        assert(chars@.skip(0) =~= chars@);
    }
    while start < chars.len()
        invariant_except_break
            start <= chars@.len(),
            space == (|c: char| is_space(c)),
            trim_start(chars@.skip(start as int), space) == trim_start(chars@, space),
        ensures
            start <= chars@.len(),
            chars@.skip(start as int) == trim_start(chars@, space),
        decreases chars@.len() - start,
    {
        proof {
            assert(chars@.skip(start as int).drop_first() =~= chars@.skip(start as int + 1));
        }
        if !is_space_char(chars[start]) {
            break;
        }
        start = start + 1;
    }
    let ghost rest = chars@.skip(start as int);
    let mut end: usize = chars.len();
    proof {
        assert(chars@.subrange(start as int, end as int) =~= rest);
    }
    while end > start
        invariant_except_break
            start <= end <= chars@.len(),
            space == (|c: char| is_space(c)),
            trim_end(chars@.subrange(start as int, end as int), space) == trim_end(rest, space),
        ensures
            start <= end <= chars@.len(),
            chars@.subrange(start as int, end as int) == trim_end(rest, space),
        decreases end,
    {
        proof {
            assert(chars@.subrange(start as int, end as int).drop_last() =~= chars@.subrange(
                start as int,
                end as int - 1,
            ));
        }
        if !is_space_char(chars[end - 1]) {
            break;
        }
        end = end - 1;
    }
    string_of(vstd::slice::slice_subrange(chars.as_slice(), start, end))
}

// ---------------------------------------------------------------------------
// Bytes
// ---------------------------------------------------------------------------

/// The text that bytes stand for, with a replacement for what is not valid.
pub uninterp spec fn lossy_text(bytes: Seq<u8>) -> Seq<char>;

/// Calls `String::from_utf8_lossy` of std and takes the owned text: the text
/// that the bytes encode, with replacement characters for sequences that are
/// not valid. The result is named `lossy_text`; for valid bytes it is the text
/// that they encode.
#[verifier::external_body]
pub(crate) fn text_of_bytes(bytes: &[u8]) -> (r: String)
    ensures
        r@ == lossy_text(bytes@),
        vstd::utf8::valid_utf8(bytes@) ==> r@ == vstd::utf8::decode_utf8(bytes@),
{
    String::from_utf8_lossy(bytes).into_owned()
}

// ---------------------------------------------------------------------------
// Reading numbers
// ---------------------------------------------------------------------------

/// Whether a character is a decimal digit.
pub open spec fn is_digit(c: char) -> bool {
    '0' <= c <= '9'
}

/// The number that digits stand for.
pub open spec fn digits_value(s: Seq<char>) -> nat
    decreases s.len(),
{
    if s.len() == 0 {
        0
    } else {
        digits_value(s.drop_last()) * 10 + (s.last() as u32 - '0' as u32) as nat
    }
}

/// Whether a text consists of digits, at least one.
pub open spec fn all_digits(s: Seq<char>) -> bool {
    s.len() > 0 && forall|i: int| 0 <= i < s.len() ==> is_digit(#[trigger] s[i])
}

/// The number that a text spells: digits, with a plus sign before them or not,
/// that fit a machine word.
pub open spec fn spelled_number(s: Seq<char>) -> Option<nat> {
    let digits = if s.len() > 0 && s[0] == '+' {
        s.skip(1)
    } else {
        s
    };
    if all_digits(digits) && digits_value(digits) <= usize::MAX {
        Some(digits_value(digits))
    } else {
        None
    }
}

proof fn lemma_digits_grow(s: Seq<char>, n: int)
    requires
        0 <= n <= s.len(),
        forall|i: int| 0 <= i < s.len() ==> is_digit(#[trigger] s[i]),
    ensures
        digits_value(s.take(n)) <= digits_value(s),
    decreases s.len(),
{
    if n == s.len() {
        assert(s.take(n) =~= s);
    } else {
        assert(s.drop_last().take(n) =~= s.take(n));
        assert forall|i: int| 0 <= i < s.drop_last().len() implies is_digit(
            #[trigger] s.drop_last()[i],
        ) by {
            assert(is_digit(s[i]));
        }
        lemma_digits_grow(s.drop_last(), n);
    }
}

/// The number that digits of a text stand for, unless it is too large.
pub fn read_digits(chars: &[char], from: usize, to: usize) -> (r: Option<usize>)
    requires
        from <= to <= chars@.len(),
        forall|i: int| from <= i < to ==> is_digit(#[trigger] chars@[i]),
    ensures
        match r {
            Some(n) => n == digits_value(chars@.subrange(from as int, to as int)),
            None => digits_value(chars@.subrange(from as int, to as int)) > usize::MAX,
        },
{
    let ghost all = chars@.subrange(from as int, to as int);
    let mut value: usize = 0;
    let mut i: usize = from;
    proof {
        assert(all.take(0) =~= Seq::<char>::empty());
        assert forall|k: int| 0 <= k < all.len() implies is_digit(#[trigger] all[k]) by {
            assert(is_digit(chars@[from + k]));
        }
    }
    while i < to
        invariant
            from <= i <= to <= chars@.len(),
            all == chars@.subrange(from as int, to as int),
            forall|k: int| from <= k < to ==> is_digit(#[trigger] chars@[k]),
            forall|k: int| 0 <= k < all.len() ==> is_digit(#[trigger] all[k]),
            value == digits_value(all.take(i - from)),
        decreases to - i,
    {
        let c: char = chars[i];
        proof {
            assert(is_digit(chars@[i as int]));
            let longer = all.take(i - from + 1);
            assert(longer.drop_last() =~= all.take(i - from));
            assert(longer.last() == c);
            lemma_digits_grow(all, i - from + 1);
        }
        let digit: usize = (c as u32 - 48) as usize;
        if value > (usize::MAX - digit) / 10 {
            proof {
                assert(value * 10 + digit > usize::MAX) by (nonlinear_arith)
                    requires
                        value > (usize::MAX - digit) / 10,
                        digit <= 9,
                ;
            }
            return None;
        }
        proof {
            assert(value * 10 + digit <= usize::MAX) by (nonlinear_arith)
                requires
                    value <= (usize::MAX - digit) / 10,
                    digit <= 9,
            ;
        }
        value = value * 10 + digit;
        i = i + 1;
    }
    proof {
        assert(all.take(all.len() as int) =~= all);
    }
    Some(value)
}

/// The number that a text spells, if it spells one that fits a machine word.
pub fn parse_number(s: &str) -> (r: Option<usize>)
    ensures
        match r {
            Some(n) => spelled_number(s@) == Some(n as nat),
            None => spelled_number(s@) is None,
        },
{
    let chars: Vec<char> = chars_of(s);
    let n: usize = chars.len();
    let from: usize = if n > 0 && chars[0] == '+' {
        1
    } else {
        0
    };
    let ghost digits = chars@.subrange(from as int, n as int);
    proof {
        assert(digits =~= if from == 1 {
            s@.skip(1)
        } else {
            s@
        });
    }
    if from == n {
        return None;
    }
    let mut i: usize = from;
    while i < n
        invariant
            from <= i <= n == chars@.len(),
            digits == chars@.subrange(from as int, n as int),
            digits == if s@.len() > 0 && s@[0] == '+' {
                s@.skip(1)
            } else {
                s@
            },
            forall|k: int| from <= k < i ==> is_digit(#[trigger] chars@[k]),
        decreases n - i,
    {
        let c: char = chars[i];
        if !('0' <= c && c <= '9') {
            proof {
                assert(digits[i - from] == c);
            }
            return None;
        }
        i = i + 1;
    }
    proof {
        assert forall|k: int| 0 <= k < digits.len() implies is_digit(#[trigger] digits[k]) by {
            assert(is_digit(chars@[from + k]));
        }
    }
    read_digits(chars.as_slice(), from, n)
}

} // verus!
