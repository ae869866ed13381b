//! JSON values: a tree of plain values, its compact text, and the accessors
//! that the rest of the library reads it with.

use vstd::prelude::*;
use vstd::string::*;

use crate::text::{
    concat3, decimal, decimal_text, join, join_texts, same_text, signed_decimal,
    signed_decimal_text, texts,
};

verus! {

/// A JSON value. Numbers are told apart as the parser does: integers that are
/// not negative, negative integers, and the text of any other number.
pub enum Json {
    Null,
    Bool(bool),
    Unsigned(u64),
    Negative(i64),
    Float(String),
    Text(String),
    Array(Vec<Json>),
    Object(Vec<(String, Json)>),
}

/// The mathematical value of a [`Json`].
pub enum JsonView {
    Null,
    Bool(bool),
    Unsigned(nat),
    Negative(int),
    Float(Seq<char>),
    Text(Seq<char>),
    Array(Seq<JsonView>),
    Object(Seq<(Seq<char>, JsonView)>),
}

impl View for Json {
    type V = JsonView;

    open spec fn view(&self) -> JsonView {
        json_view(*self)
    }
}

pub open spec fn json_view(j: Json) -> JsonView
    decreases j,
{
    match j {
        Json::Null => JsonView::Null,
        Json::Bool(b) => JsonView::Bool(b),
        Json::Unsigned(n) => JsonView::Unsigned(n as nat),
        Json::Negative(i) => JsonView::Negative(i as int),
        Json::Float(t) => JsonView::Float(t@),
        Json::Text(t) => JsonView::Text(t@),
        Json::Array(items) => JsonView::Array(json_views(items@)),
        Json::Object(members) => JsonView::Object(member_views(members@)),
    }
}

pub open spec fn json_views(s: Seq<Json>) -> Seq<JsonView>
    decreases s,
{
    if s.len() == 0 {
        Seq::empty()
    } else {
        json_views(s.drop_last()).push(json_view(s.last()))
    }
}

pub open spec fn member_views(s: Seq<(String, Json)>) -> Seq<(Seq<char>, JsonView)>
    decreases s,
{
    if s.len() == 0 {
        Seq::empty()
    } else {
        member_views(s.drop_last()).push((s.last().0@, json_view(s.last().1)))
    }
}

pub proof fn lemma_json_views(s: Seq<Json>)
    ensures
        json_views(s).len() == s.len(),
        forall|i: int| 0 <= i < s.len() ==> #[trigger] json_views(s)[i] == json_view(s[i]),
    decreases s.len(),
{
    if s.len() > 0 {
        lemma_json_views(s.drop_last());
    }
}

pub proof fn lemma_member_views(s: Seq<(String, Json)>)
    ensures
        member_views(s).len() == s.len(),
        forall|i: int|
            0 <= i < s.len() ==> #[trigger] member_views(s)[i] == (s[i].0@, json_view(s[i].1)),
    decreases s.len(),
{
    if s.len() > 0 {
        lemma_member_views(s.drop_last());
    }
}

// ---------------------------------------------------------------------------
// Accessors
// ---------------------------------------------------------------------------

/// The value of the first member with the given key.
pub open spec fn member_of(members: Seq<(Seq<char>, JsonView)>, key: Seq<char>) -> Option<JsonView>
    decreases members.len(),
{
    if members.len() == 0 {
        None
    } else if members[0].0 == key {
        Some(members[0].1)
    } else {
        member_of(members.drop_first(), key)
    }
}

impl JsonView {
    /// The member with the given key, when the value is an object that has one.
    pub open spec fn get(self, key: Seq<char>) -> Option<JsonView> {
        match self {
            JsonView::Object(members) => member_of(members, key),
            _ => None,
        }
    }

    pub open spec fn as_text(self) -> Option<Seq<char>> {
        match self {
            JsonView::Text(t) => Some(t),
            _ => None,
        }
    }

    pub open spec fn as_bool(self) -> Option<bool> {
        match self {
            JsonView::Bool(b) => Some(b),
            _ => None,
        }
    }

    pub open spec fn as_i64(self) -> Option<int> {
        match self {
            JsonView::Unsigned(n) if n <= i64::MAX => Some(n as int),
            JsonView::Negative(i) => Some(i),
            _ => None,
        }
    }

    pub open spec fn as_u64(self) -> Option<nat> {
        match self {
            JsonView::Unsigned(n) => Some(n),
            _ => None,
        }
    }

    /// The text of the member with the given key, or the empty text.
    pub open spec fn text_field(self, key: Seq<char>) -> Seq<char> {
        match self.optional_text_field(key) {
            Some(t) => t,
            None => Seq::empty(),
        }
    }

    /// The text of the member with the given key, when it is a text.
    pub open spec fn optional_text_field(self, key: Seq<char>) -> Option<Seq<char>> {
        match self.get(key) {
            Some(v) => v.as_text(),
            None => None,
        }
    }

    /// The flag with the given key; absent and other values count as false.
    pub open spec fn bool_field(self, key: Seq<char>) -> bool {
        match self.get(key) {
            Some(v) => v.as_bool() == Some(true),
            None => false,
        }
    }

    /// The integer with the given key.
    pub open spec fn int_field(self, key: Seq<char>) -> Option<int> {
        match self.get(key) {
            Some(v) => v.as_i64(),
            None => None,
        }
    }
}

/// The position of the first member with the given key.
pub fn member_index(members: &Vec<(String, Json)>, key: &str) -> (r: Option<usize>)
    ensures
        match r {
            Some(i) => i < members@.len() && members@[i as int].0@ == key@ && member_of(
                member_views(members@),
                key@,
            ) == Some(json_view(members@[i as int].1)) && forall|k: int|
                0 <= k < i ==> (#[trigger] members@[k]).0@ != key@,
            None => member_of(member_views(members@), key@) is None && forall|k: int|
                0 <= k < members@.len() ==> (#[trigger] members@[k]).0@ != key@,
        },
{
    let mut i: usize = 0;
    let ghost views = member_views(members@);
    proof {
        lemma_member_views(members@);
        assert(views.skip(0) =~= views);
    }
    while i < members.len()
        invariant
            i <= members@.len(),
            views == member_views(members@),
            views.len() == members@.len(),
            forall|k: int| 0 <= k < members@.len() ==> #[trigger] views[k] == (
                members@[k].0@,
                json_view(members@[k].1),
            ),
            member_of(views, key@) == member_of(views.skip(i as int), key@),
            forall|k: int| 0 <= k < i ==> (#[trigger] members@[k]).0@ != key@,
        decreases members@.len() - i,
    {
        proof {
            assert(views.skip(i as int)[0] == views[i as int]);
            assert(views.skip(i as int).drop_first() =~= views.skip(i as int + 1));
        }
        if same_text(members[i].0.as_str(), key) {
            return Some(i);
        }
        i = i + 1;
    }
    None
}

impl Json {
    /// The member with the given key, when the value is an object that has one.
    pub fn get(&self, key: &str) -> (r: Option<&Json>)
        ensures
            match r {
                Some(v) => self@.get(key@) == Some(v@),
                None => self@.get(key@) is None,
            },
    {
        match self {
            Json::Object(members) => match member_index(members, key) {
                Some(i) => Some(&members[i].1),
                None => None,
            },
            _ => None,
        }
    }

    /// The text, when the value is one.
    pub fn as_str(&self) -> (r: Option<&String>)
        ensures
            match r {
                Some(t) => self@.as_text() == Some(t@),
                None => self@.as_text() is None,
            },
    {
        match self {
            Json::Text(t) => Some(t),
            _ => None,
        }
    }

    pub fn as_bool(&self) -> (r: Option<bool>)
        ensures
            r == self@.as_bool(),
    {
        match self {
            Json::Bool(b) => Some(*b),
            _ => None,
        }
    }

    pub fn as_i64(&self) -> (r: Option<i64>)
        ensures
            match r {
                Some(i) => self@.as_i64() == Some(i as int),
                None => self@.as_i64() is None,
            },
    {
        match self {
            Json::Unsigned(n) => if *n <= 0x7fff_ffff_ffff_ffff {
                Some(*n as i64)
            } else {
                None
            },
            Json::Negative(i) => Some(*i),
            _ => None,
        }
    }

    pub fn as_u64(&self) -> (r: Option<u64>)
        ensures
            match r {
                Some(n) => self@.as_u64() == Some(n as nat),
                None => self@.as_u64() is None,
            },
    {
        match self {
            Json::Unsigned(n) => Some(*n),
            _ => None,
        }
    }

    /// The text of the member with the given key, or the empty text.
    pub fn text_field(&self, key: &str) -> (r: String)
        ensures
            r@ == self@.text_field(key@),
    {
        match self.optional_text_field(key) {
            Some(t) => t,
            None => String::new(),
        }
    }

    /// The text of the member with the given key, when it is a text.
    pub fn optional_text_field(&self, key: &str) -> (r: Option<String>)
        ensures
            match r {
                Some(t) => self@.optional_text_field(key@) == Some(t@),
                None => self@.optional_text_field(key@) is None,
            },
    {
        match self.get(key) {
            Some(v) => match v.as_str() {
                Some(t) => Some(t.clone()),
                None => None,
            },
            None => None,
        }
    }

    /// The flag with the given key; absent and other values count as false.
    pub fn bool_field(&self, key: &str) -> (r: bool)
        ensures
            r == self@.bool_field(key@),
    {
        match self.get(key) {
            Some(v) => match v.as_bool() {
                Some(b) => b,
                None => false,
            },
            None => false,
        }
    }

    /// The integer with the given key.
    pub fn int_field(&self, key: &str) -> (r: Option<i64>)
        ensures
            match r {
                Some(i) => self@.int_field(key@) == Some(i as int),
                None => self@.int_field(key@) is None,
            },
    {
        match self.get(key) {
            Some(v) => v.as_i64(),
            None => None,
        }
    }
}

// ---------------------------------------------------------------------------
// Building
// ---------------------------------------------------------------------------

/// The value of an integer.
pub open spec fn int_view(i: int) -> JsonView {
    if i >= 0 {
        JsonView::Unsigned(i as nat)
    } else {
        JsonView::Negative(i)
    }
}

/// The value of an integer.
pub fn int_value(i: i64) -> (r: Json)
    ensures
        r@ == int_view(i as int),
{
    if i >= 0 {
        Json::Unsigned(i as u64)
    } else {
        Json::Negative(i)
    }
}

/// The value of a text.
pub fn text_value(text: &str) -> (r: Json)
    ensures
        r@ == JsonView::Text(text@),
{
    Json::Text(text.to_owned())
}

/// Adds a member at the end of an object's members.
pub fn push_member(members: &mut Vec<(String, Json)>, key: &str, value: Json)
    ensures
        member_views(final(members)@) == member_views(old(members)@).push((key@, value@)),
{
    let ghost before = members@;
    members.push((key.to_owned(), value));
    proof {
        assert(members@.drop_last() =~= before);
    }
}

/// Adds an item at the end of an array's items.
pub fn push_item(items: &mut Vec<Json>, value: Json)
    ensures
        json_views(final(items)@) == json_views(old(items)@).push(value@),
{
    let ghost before = items@;
    items.push(value);
    proof {
        assert(items@.drop_last() =~= before);
    }
}

/// The array of some texts.
pub open spec fn texts_view(items: Seq<Seq<char>>) -> JsonView {
    JsonView::Array(Seq::new(items.len(), |i: int| JsonView::Text(items[i])))
}

/// The array of some texts.
pub fn texts_value(items: &Vec<String>) -> (r: Json)
    ensures
        r@ == texts_view(texts(items@)),
{
    let ghost all = texts_view(texts(items@))->Array_0;
    let mut out: Vec<Json> = Vec::new();
    let mut i: usize = 0;
    proof {
        assert(json_views(out@) =~= all.take(0));
    }
    while i < items.len()
        invariant
            i <= items@.len(),
            all == texts_view(texts(items@))->Array_0,
            json_views(out@) == all.take(i as int),
        decreases items@.len() - i,
    {
        push_item(&mut out, Json::Text(items[i].clone()));
        proof {
            assert(all.take(i as int + 1) =~= all.take(i as int).push(all[i as int]));
        }
        i = i + 1;
    }
    proof {
        assert(all.take(all.len() as int) =~= all);
    }
    Json::Array(out)
}

/// The texts of an array that holds nothing else.
pub open spec fn as_texts(items: Seq<JsonView>) -> Option<Seq<Seq<char>>> {
    if forall|i: int| 0 <= i < items.len() ==> (#[trigger] items[i]) is Text {
        Some(Seq::new(items.len(), |i: int| items[i]->Text_0))
    } else {
        None
    }
}

/// The texts of an array that holds nothing else.
pub fn collect_text_items(items: &Vec<Json>) -> (r: Option<Vec<String>>)
    ensures
        match r {
            Some(found) => as_texts(json_views(items@)) == Some(texts(found@)),
            None => as_texts(json_views(items@)) is None,
        },
{
    let ghost views = json_views(items@);
    proof {
        lemma_json_views(items@);
    }
    let mut out: Vec<String> = Vec::new();
    let mut i: usize = 0;
    while i < items.len()
        invariant
            i <= items@.len(),
            views == json_views(items@),
            views.len() == items@.len(),
            forall|k: int| 0 <= k < items@.len() ==> #[trigger] views[k] == json_view(items@[k]),
            out@.len() == i,
            forall|k: int|
                0 <= k < i ==> #[trigger] views[k] is Text && views[k]->Text_0 == out@[k]@,
        decreases items@.len() - i,
    {
        proof {
            assert(views[i as int] == json_view(items@[i as int]));
        }
        match &items[i] {
            Json::Text(t) => {
                out.push(t.clone());
            },
            _ => {
                return None;
            },
        }
        i = i + 1;
    }
    proof {
        assert(as_texts(views).unwrap() =~= texts(out@));
    }
    Some(out)
}

// ---------------------------------------------------------------------------
// Copying
// ---------------------------------------------------------------------------

impl Clone for Json {
    fn clone(&self) -> (r: Self)
        ensures
            r@ == self@,
        decreases self,
    {
        match self {
            Json::Null => Json::Null,
            Json::Bool(b) => Json::Bool(*b),
            Json::Unsigned(n) => Json::Unsigned(*n),
            Json::Negative(i) => Json::Negative(*i),
            Json::Float(t) => Json::Float(t.clone()),
            Json::Text(t) => Json::Text(t.clone()),
            Json::Array(items) => {
                let mut out: Vec<Json> = Vec::new();
                let mut i: usize = 0;
                while i < items.len()
                    invariant
                        i <= items@.len(),
                        *self == Json::Array(*items),
                        json_views(out@) == json_views(items@.take(i as int)),
                    decreases items@.len() - i,
                {
                    proof {
                        assert(decreases_to!(*self => self->Array_0));
                        assert(decreases_to!(*items => items@[i as int]));
                    }
                    let copy: Json = items[i].clone();
                    proof {
                        assert(items@.take(i as int + 1).drop_last() =~= items@.take(i as int));
                        assert(out@.push(copy).drop_last() =~= out@);
                    }
                    out.push(copy);
                    i = i + 1;
                }
                proof {
                    assert(items@.take(items@.len() as int) =~= items@);
                }
                Json::Array(out)
            },
            Json::Object(members) => {
                let mut out: Vec<(String, Json)> = Vec::new();
                let mut i: usize = 0;
                while i < members.len()
                    invariant
                        i <= members@.len(),
                        *self == Json::Object(*members),
                        member_views(out@) == member_views(members@.take(i as int)),
                    decreases members@.len() - i,
                {
                    proof {
                        assert(decreases_to!(*self => self->Object_0));
                        assert(decreases_to!(*members => members@[i as int]));
                        assert(decreases_to!(members@[i as int] => members@[i as int].1));
                    }
                    let copy: (String, Json) = (members[i].0.clone(), members[i].1.clone());
                    proof {
                        assert(members@.take(i as int + 1).drop_last() =~= members@.take(i as int));
                        assert(out@.push(copy).drop_last() =~= out@);
                    }
                    out.push(copy);
                    i = i + 1;
                }
                proof {
                    assert(members@.take(members@.len() as int) =~= members@);
                }
                Json::Object(out)
            },
        }
    }
}

// ---------------------------------------------------------------------------
// Text
// ---------------------------------------------------------------------------

/// A hexadecimal digit.
pub open spec fn hex_char(n: int) -> char {
    seq!['0', '1', '2', '3', '4', '5', '6', '7', '8', '9', 'a', 'b', 'c', 'd', 'e', 'f'][n]
}

/// A character as it stands in a quoted text: the quotes, the backslash and the
/// control characters are escaped.
pub open spec fn escaped_char(c: char) -> Seq<char> {
    if c == '"' {
        seq!['\\', '"']
    } else if c == '\\' {
        seq!['\\', '\\']
    } else if c == '\u{8}' {
        seq!['\\', 'b']
    } else if c == '\u{c}' {
        seq!['\\', 'f']
    } else if c == '\n' {
        seq!['\\', 'n']
    } else if c == '\r' {
        seq!['\\', 'r']
    } else if c == '\t' {
        seq!['\\', 't']
    } else if (c as int) < 0x20 {
        seq!['\\', 'u', '0', '0', hex_char(c as int / 16), hex_char(c as int % 16)]
    } else {
        seq![c]
    }
}

/// The characters of a text as they stand in a quoted one.
pub open spec fn escaped_text(s: Seq<char>) -> Seq<char>
    decreases s.len(),
{
    if s.len() == 0 {
        Seq::empty()
    } else {
        escaped_text(s.drop_last()) + escaped_char(s.last())
    }
}

/// A text between double quotes.
pub open spec fn json_quoted(s: Seq<char>) -> Seq<char> {
    seq!['"'] + escaped_text(s) + seq!['"']
}

proof fn lemma_hex_char(n: int)
    requires
        0 <= n < 16,
    ensures
        hex_char(n) != '\n',
{
}

proof fn lemma_escaped_char(c: char, k: int)
    requires
        0 <= k < escaped_char(c).len(),
    ensures
        escaped_char(c)[k] != '\n',
{
    if (c as int) < 0x20 {
        assert(0 <= c as int / 16 < 16 && 0 <= c as int % 16 < 16);
        lemma_hex_char(c as int / 16);
        lemma_hex_char(c as int % 16);
    }
}

proof fn lemma_escaped_text(s: Seq<char>)
    ensures
        !escaped_text(s).contains('\n'),
    decreases s.len(),
{
    if s.len() > 0 {
        let front = escaped_text(s.drop_last());
        let last = escaped_char(s.last());
        let all = front + last;
        lemma_escaped_text(s.drop_last());
        assert forall|k: int| 0 <= k < all.len() implies all[k] != '\n' by {
            if k < front.len() {
                assert(front.contains(front[k]));
            } else {
                lemma_escaped_char(s.last(), k - front.len());
            }
        }
    }
}

proof fn lemma_quoted_text(s: Seq<char>)
    ensures
        !json_quoted(s).contains('\n'),
{
    lemma_escaped_text(s);
    let middle = escaped_text(s);
    let all = json_quoted(s);
    assert forall|k: int| 0 <= k < all.len() implies all[k] != '\n' by {
        if 0 < k <= middle.len() {
            assert(all[k] == middle[k - 1]);
            assert(middle.contains(middle[k - 1]));
        }
    }
}

/// Calls `serde_json::to_string` for a text: the text between double quotes, with
/// a backslash before quotes and backslashes, the short escapes of backspace,
/// form feed, line feed, carriage return and tab, and the number in four lower
/// case hexadecimal digits for the other characters below U+0020. Every other
/// character stays as it is.
#[verifier::external_body]
fn quote(s: &str) -> (r: String)
    ensures
        r@ == json_quoted(s@),
{
    serde_json::to_string(s).unwrap_or_default()
}

/// The compact JSON text of a value.
pub open spec fn json_text(v: JsonView) -> Seq<char>
    decreases v,
{
    match v {
        JsonView::Null => "null"@,
        JsonView::Bool(b) => if b {
            "true"@
        } else {
            "false"@
        },
        JsonView::Unsigned(n) => decimal(n),
        JsonView::Negative(i) => signed_decimal(i),
        JsonView::Float(t) => t,
        JsonView::Text(t) => json_quoted(t),
        JsonView::Array(items) => "["@ + join(json_texts(items), ","@) + "]"@,
        JsonView::Object(members) => "{"@ + join(member_texts(members), ","@) + "}"@,
    }
}

pub open spec fn json_texts(items: Seq<JsonView>) -> Seq<Seq<char>>
    decreases items,
{
    if items.len() == 0 {
        Seq::empty()
    } else {
        json_texts(items.drop_last()).push(json_text(items.last()))
    }
}

pub open spec fn member_texts(members: Seq<(Seq<char>, JsonView)>) -> Seq<Seq<char>>
    decreases members,
{
    if members.len() == 0 {
        Seq::empty()
    } else {
        member_texts(members.drop_last()).push(
            json_quoted(members.last().0) + ":"@ + json_text(members.last().1),
        )
    }
}

proof fn lemma_digits_hold_no_line_feed(n: nat)
    ensures
        !decimal(n).contains('\n'),
    decreases n,
{
    if n >= 10 {
        lemma_digits_hold_no_line_feed(n / 10);
        assert forall|i: int| 0 <= i < decimal(n).len() implies decimal(n)[i] != '\n' by {
            if i < decimal(n / 10).len() {
                assert(decimal(n / 10).contains(decimal(n / 10)[i]));
            }
        }
    }
}

proof fn lemma_signed_digits_hold_no_line_feed(i: int)
    requires
        i < 0,
    ensures
        !signed_decimal(i).contains('\n'),
{
    let n = (-i) as nat;
    lemma_digits_hold_no_line_feed(n);
    reveal_strlit("-");
    let text = signed_decimal(i);
    assert forall|k: int| 0 <= k < text.len() implies text[k] != '\n' by {
        if k > 0 {
            assert(text[k] == decimal(n)[k - 1]);
            assert(decimal(n).contains(decimal(n)[k - 1]));
        }
    }
}

proof fn lemma_joined_hold_no_line_feed(parts: Seq<Seq<char>>)
    requires
        forall|k: int| 0 <= k < parts.len() ==> !(#[trigger] parts[k]).contains('\n'),
    ensures
        !join(parts, ","@).contains('\n'),
    decreases parts.len(),
{
    reveal_strlit(",");
    let all = join(parts, ","@);
    if parts.len() > 1 {
        let front = parts.drop_last();
        assert forall|k: int| 0 <= k < front.len() implies !(#[trigger] front[k]).contains(
            '\n',
        ) by {
            assert(front[k] == parts[k]);
        }
        lemma_joined_hold_no_line_feed(front);
        let before = join(front, ","@);
        let last = parts[parts.len() - 1];
        assert(!last.contains('\n'));
        assert forall|k: int| 0 <= k < all.len() implies all[k] != '\n' by {
            if k < before.len() {
                assert(all[k] == before[k]);
                assert(before.contains(before[k]));
            } else if k > before.len() {
                let m = k - before.len() - 1;
                assert(all[k] == last[m]);
                assert(last.contains(last[m]));
            }
        }
    } else if parts.len() == 1 {
        assert(!parts[0].contains('\n'));
    }
}

/// A text between two brackets holds no line feed if it holds none.
proof fn lemma_bracketed(open: Seq<char>, text: Seq<char>, close: Seq<char>)
    requires
        !open.contains('\n'),
        !text.contains('\n'),
        !close.contains('\n'),
    ensures
        !(open + text + close).contains('\n'),
{
    let all = open + text + close;
    assert forall|k: int| 0 <= k < all.len() implies all[k] != '\n' by {
        if k < open.len() {
            assert(open.contains(open[k]));
        } else if k < open.len() + text.len() {
            assert(text.contains(text[k - open.len()]));
        } else {
            assert(close.contains(close[k - open.len() - text.len()]));
        }
    }
}

proof fn lemma_plain_item(items: Seq<JsonView>, i: int)
    requires
        items_plain(items),
        0 <= i < items.len(),
    ensures
        json_plain(items[i]),
    decreases items.len(),
{
    if i < items.len() - 1 {
        lemma_plain_item(items.drop_last(), i);
    }
}

proof fn lemma_plain_member(members: Seq<(Seq<char>, JsonView)>, i: int)
    requires
        members_plain(members),
        0 <= i < members.len(),
    ensures
        json_plain(members[i].1),
    decreases members.len(),
{
    if i < members.len() - 1 {
        lemma_plain_member(members.drop_last(), i);
    }
}

/// The compact JSON text of a value. That of a plain value is one line.
pub fn write_json(j: &Json) -> (r: String)
    ensures
        r@ == json_text(j@),
        json_plain(j@) ==> !r@.contains('\n'),
    decreases j, 0nat,
{
    proof {
        reveal_strlit("null");
        reveal_strlit("true");
        reveal_strlit("false");
        reveal_strlit("[");
        reveal_strlit("]");
        reveal_strlit("{");
        reveal_strlit("}");
        match j {
            Json::Unsigned(n) => {
                lemma_digits_hold_no_line_feed(*n as nat);
            },
            Json::Negative(i) => {
                if *i < 0 {
                    lemma_signed_digits_hold_no_line_feed(*i as int);
                }
            },
            Json::Array(items) => {
                lemma_json_views(items@);
            },
            Json::Object(members) => {
                lemma_member_views(members@);
            },
            _ => {},
        }
    }
    match j {
        Json::Null => "null".to_owned(),
        Json::Bool(b) => if *b {
            "true".to_owned()
        } else {
            "false".to_owned()
        },
        Json::Unsigned(n) => decimal_text(*n),
        Json::Negative(i) => signed_decimal_text(*i),
        Json::Float(t) => t.clone(),
        Json::Text(t) => {
            proof {
                lemma_quoted_text(t@);
            }
            quote(t.as_str())
        },
        Json::Array(items) => {
            let mut parts: Vec<String> = Vec::new();
            let mut i: usize = 0;
            proof {
                assert(texts(parts@) =~= Seq::<Seq<char>>::empty());
                assert(items@.take(0) =~= Seq::<Json>::empty());
            }
            while i < items.len()
                invariant
                    i <= items@.len(),
                    *j == Json::Array(*items),
                    texts(parts@) == json_texts(json_views(items@.take(i as int))),
                    json_views(items@).len() == items@.len(),
                    forall|k: int|
                        0 <= k < items@.len() ==> #[trigger] json_views(items@)[k] == json_view(
                            items@[k],
                        ),
                    json_plain(j@) ==> forall|k: int|
                        0 <= k < parts@.len() ==> !(#[trigger] parts@[k])@.contains('\n'),
                decreases items@.len() - i,
            {
                proof {
                    assert(decreases_to!(*j => j->Array_0));
                    assert(decreases_to!(*items => items@[i as int]));
                    if json_plain(j@) {
                        lemma_plain_item(json_views(items@), i as int);
                    }
                }
                let part: String = write_json(&items[i]);
                proof {
                    assert(items@.take(i as int + 1).drop_last() =~= items@.take(i as int));
                    let views = json_views(items@.take(i as int + 1));
                    assert(views.drop_last() =~= json_views(items@.take(i as int)));
                    assert(texts(parts@.push(part)) =~= texts(parts@).push(part@));
                }
                parts.push(part);
                i = i + 1;
            }
            proof {
                assert(items@.take(items@.len() as int) =~= items@);
                if json_plain(j@) {
                    assert forall|k: int| 0 <= k < texts(parts@).len() implies !(#[trigger] texts(
                        parts@,
                    )[k]).contains('\n') by {
                        assert(!parts@[k]@.contains('\n'));
                    }
                    lemma_joined_hold_no_line_feed(texts(parts@));
                    lemma_bracketed("["@, join(texts(parts@), ","@), "]"@);
                }
            }
            concat3("[", join_texts(parts.as_slice(), ",").as_str(), "]")
        },
        Json::Object(members) => {
            let mut parts: Vec<String> = Vec::new();
            let mut i: usize = 0;
            proof {
                assert(texts(parts@) =~= Seq::<Seq<char>>::empty());
                assert(members@.take(0) =~= Seq::<(String, Json)>::empty());
            }
            while i < members.len()
                invariant
                    i <= members@.len(),
                    *j == Json::Object(*members),
                    texts(parts@) == member_texts(member_views(members@.take(i as int))),
                    member_views(members@).len() == members@.len(),
                    forall|k: int|
                        0 <= k < members@.len() ==> #[trigger] member_views(members@)[k] == (
                            members@[k].0@,
                            json_view(members@[k].1),
                        ),
                    json_plain(j@) ==> forall|k: int|
                        0 <= k < parts@.len() ==> !(#[trigger] parts@[k])@.contains('\n'),
                decreases members@.len() - i,
            {
                proof {
                    assert(decreases_to!(*j => j->Object_0));
                    assert(decreases_to!(*members => members@[i as int]));
                    assert(decreases_to!(members@[i as int] => members@[i as int].1));
                    if json_plain(j@) {
                        lemma_plain_member(member_views(members@), i as int);
                    }
                }
                let part: String = member_text(members[i].0.as_str(), &members[i].1);
                proof {
                    assert(members@.take(i as int + 1).drop_last() =~= members@.take(i as int));
                    let views = member_views(members@.take(i as int + 1));
                    assert(views.drop_last() =~= member_views(members@.take(i as int)));
                    assert(texts(parts@.push(part)) =~= texts(parts@).push(part@));
                }
                parts.push(part);
                i = i + 1;
            }
            proof {
                assert(members@.take(members@.len() as int) =~= members@);
                if json_plain(j@) {
                    assert forall|k: int| 0 <= k < texts(parts@).len() implies !(#[trigger] texts(
                        parts@,
                    )[k]).contains('\n') by {
                        assert(!parts@[k]@.contains('\n'));
                    }
                    lemma_joined_hold_no_line_feed(texts(parts@));
                    lemma_bracketed("{"@, join(texts(parts@), ","@), "}"@);
                }
            }
            concat3("{", join_texts(parts.as_slice(), ",").as_str(), "}")
        },
    }
}

/// The compact JSON text of one member of an object.
fn member_text(key: &str, value: &Json) -> (r: String)
    ensures
        r@ == json_quoted(key@) + ":"@ + json_text(value@),
        json_plain(value@) ==> !r@.contains('\n'),
    decreases value, 1nat,
{
    let quoted: String = quote(key);
    proof {
        lemma_quoted_text(key@);
    }
    let text: String = write_json(value);
    proof {
        reveal_strlit(":");
        if json_plain(value@) {
            lemma_bracketed(quoted@, ":"@, text@);
        }
    }
    concat3(quoted.as_str(), ":", text.as_str())
}

// ---------------------------------------------------------------------------
// Equality
// ---------------------------------------------------------------------------

/// Whether two number texts stand for the same number: equal texts, or the
/// two notations of zero.
pub open spec fn same_float(a: Seq<char>, b: Seq<char>) -> bool {
    a == b || ((a == "0.0"@ || a == "-0.0"@) && (b == "0.0"@ || b == "-0.0"@))
}

/// Equality of JSON values; the order of an object's members does not count.
pub open spec fn json_same(a: JsonView, b: JsonView) -> bool
    decreases a,
{
    match (a, b) {
        (JsonView::Null, JsonView::Null) => true,
        (JsonView::Bool(x), JsonView::Bool(y)) => x == y,
        (JsonView::Unsigned(x), JsonView::Unsigned(y)) => x == y,
        (JsonView::Negative(x), JsonView::Negative(y)) => x == y,
        (JsonView::Float(x), JsonView::Float(y)) => same_float(x, y),
        (JsonView::Text(x), JsonView::Text(y)) => x == y,
        (JsonView::Array(xs), JsonView::Array(ys)) => xs.len() == ys.len() && forall|i: int|
            0 <= i < xs.len() ==> json_same(#[trigger] xs[i], ys[i]),
        (JsonView::Object(xs), JsonView::Object(ys)) => xs.len() == ys.len() && forall|i: int|
            0 <= i < xs.len() ==> member_same(#[trigger] xs[i], ys),
        _ => false,
    }
}

/// Whether an object has a member with the key and value of the given one.
pub open spec fn member_same(x: (Seq<char>, JsonView), ys: Seq<(Seq<char>, JsonView)>) -> bool
    decreases x,
{
    match member_of(ys, x.0) {
        Some(y) => json_same(x.1, y),
        None => false,
    }
}

fn is_zero_text(s: &str) -> (r: bool)
    ensures
        r == (s@ == "0.0"@ || s@ == "-0.0"@),
{
    same_text(s, "0.0") || same_text(s, "-0.0")
}

/// Equality of JSON values; the order of an object's members does not count.
pub fn same_json(a: &Json, b: &Json) -> (r: bool)
    ensures
        r == json_same(a@, b@),
    decreases a,
{
    match (a, b) {
        (Json::Null, Json::Null) => true,
        (Json::Bool(x), Json::Bool(y)) => *x == *y,
        (Json::Unsigned(x), Json::Unsigned(y)) => *x == *y,
        (Json::Negative(x), Json::Negative(y)) => *x == *y,
        (Json::Float(x), Json::Float(y)) => same_text(x.as_str(), y.as_str()) || (is_zero_text(
            x.as_str(),
        ) && is_zero_text(y.as_str())),
        (Json::Text(x), Json::Text(y)) => same_text(x.as_str(), y.as_str()),
        (Json::Array(xs), Json::Array(ys)) => {
            proof {
                lemma_json_views(xs@);
                lemma_json_views(ys@);
            }
            if xs.len() != ys.len() {
                return false;
            }
            let mut i: usize = 0;
            while i < xs.len()
                invariant
                    i <= xs@.len(),
                    xs@.len() == ys@.len(),
                    *a == Json::Array(*xs),
                    *b == Json::Array(*ys),
                    json_views(xs@).len() == xs@.len(),
                    json_views(ys@).len() == ys@.len(),
                    forall|k: int| 0 <= k < xs@.len() ==> #[trigger] json_views(xs@)[k] == json_view(xs@[k]),
                    forall|k: int| 0 <= k < ys@.len() ==> #[trigger] json_views(ys@)[k] == json_view(ys@[k]),
                    forall|k: int|
                        0 <= k < i ==> json_same(#[trigger] json_views(xs@)[k], json_views(ys@)[k]),
                decreases xs@.len() - i,
            {
                proof {
                    assert(decreases_to!(*a => a->Array_0));
                    assert(decreases_to!(*xs => xs@[i as int]));
                    assert(json_views(xs@)[i as int] == json_view(xs@[i as int]));
                    assert(json_views(ys@)[i as int] == json_view(ys@[i as int]));
                }
                if !same_json(&xs[i], &ys[i]) {
                    return false;
                }
                i = i + 1;
            }
            true
        },
        (Json::Object(xs), Json::Object(ys)) => {
            proof {
                lemma_member_views(xs@);
                lemma_member_views(ys@);
            }
            if xs.len() != ys.len() {
                return false;
            }
            let mut i: usize = 0;
            while i < xs.len()
                invariant
                    i <= xs@.len(),
                    xs@.len() == ys@.len(),
                    *a == Json::Object(*xs),
                    *b == Json::Object(*ys),
                    member_views(xs@).len() == xs@.len(),
                    member_views(ys@).len() == ys@.len(),
                    forall|k: int|
                        0 <= k < xs@.len() ==> #[trigger] member_views(xs@)[k] == (
                            xs@[k].0@,
                            json_view(xs@[k].1),
                        ),
                    forall|k: int|
                        0 <= k < i ==> member_same(#[trigger] member_views(xs@)[k], member_views(ys@)),
                decreases xs@.len() - i,
            {
                proof {
                    assert(decreases_to!(*a => a->Object_0));
                    assert(decreases_to!(*xs => xs@[i as int]));
                    assert(decreases_to!(xs@[i as int] => xs@[i as int].1));
                    assert(member_views(xs@)[i as int] == (xs@[i as int].0@, json_view(xs@[i as int].1)));
                }
                let found: bool = match member_index(ys, xs[i].0.as_str()) {
                    Some(k) => same_json(&xs[i].1, &ys[k].1),
                    None => false,
                };
                if !found {
                    proof {
                        assert(!member_same(member_views(xs@)[i as int], member_views(ys@)));
                    }
                    return false;
                }
                proof {
                    assert(member_same(member_views(xs@)[i as int], member_views(ys@)));
                }
                i = i + 1;
            }
            true
        },
        _ => false,
    }
}

// ---------------------------------------------------------------------------
// Parsing
// ---------------------------------------------------------------------------

/// The value type of `serde_json`, carried from the parser to its conversion.
#[verifier::external_type_specification]
#[verifier::external_body]
pub struct ExValue(serde_json::Value);

/// How deeply containers are nested in a value.
pub open spec fn json_depth(v: JsonView) -> nat
    decreases v,
{
    match v {
        JsonView::Array(items) => 1 + items_depth(items),
        JsonView::Object(members) => 1 + members_depth(members),
        _ => 0,
    }
}

pub open spec fn items_depth(items: Seq<JsonView>) -> nat
    decreases items,
{
    if items.len() == 0 {
        0
    } else {
        let rest = items_depth(items.drop_last());
        let last = json_depth(items.last());
        if rest < last {
            last
        } else {
            rest
        }
    }
}

pub open spec fn members_depth(members: Seq<(Seq<char>, JsonView)>) -> nat
    decreases members,
{
    if members.len() == 0 {
        0
    } else {
        let rest = members_depth(members.drop_last());
        let last = json_depth(members.last().1);
        if rest < last {
            last
        } else {
            rest
        }
    }
}

/// Whether a value is built of null, booleans, 64-bit integers, texts, arrays
/// and objects without repeated keys.
pub open spec fn json_plain(v: JsonView) -> bool
    decreases v,
{
    match v {
        JsonView::Null => true,
        JsonView::Bool(_) => true,
        JsonView::Unsigned(n) => n <= u64::MAX,
        JsonView::Negative(i) => i64::MIN <= i < 0,
        JsonView::Float(_) => false,
        JsonView::Text(_) => true,
        JsonView::Array(items) => items_plain(items),
        JsonView::Object(members) => members_plain(members),
    }
}

pub open spec fn items_plain(items: Seq<JsonView>) -> bool
    decreases items,
{
    items.len() == 0 || (items_plain(items.drop_last()) && json_plain(items.last()))
}

pub open spec fn members_plain(members: Seq<(Seq<char>, JsonView)>) -> bool
    decreases members,
{
    members.len() == 0 || (members_plain(members.drop_last()) && json_plain(members.last().1)
        && !has_key(members.drop_last(), members.last().0))
}

/// Whether one of the members has the given key.
pub open spec fn has_key(members: Seq<(Seq<char>, JsonView)>, key: Seq<char>) -> bool {
    exists|i: int| 0 <= i < members.len() && (#[trigger] members[i]).0 == key
}

/// Whether the parser gives a printed value back: a plain value nested in
/// fewer than 128 containers.
pub open spec fn json_readable(v: JsonView) -> bool {
    json_plain(v) && json_depth(v) < 128
}

/// The outcome of parsing in terms of mathematical values.
pub open spec fn json_result(r: Result<Json, String>) -> Result<JsonView, Seq<char>> {
    match r {
        Ok(j) => Ok(j@),
        Err(e) => Err(e@),
    }
}

/// Whether a parse of a printed value, with or without a line end behind it,
/// gave that value.
pub open spec fn reads_back(text: Seq<char>, r: Result<Json, String>) -> bool {
    forall|v: JsonView|
        json_readable(v) && (text == #[trigger] json_text(v) || text == json_text(v) + "\n"@)
            ==> json_result(r) == Ok::<JsonView, Seq<char>>(v)
}

/// What `serde_json` reads in a text: a value, or the message of its error.
pub uninterp spec fn parsed_json(text: Seq<char>) -> Result<JsonView, Seq<char>>;

/// Converts a value of `serde_json` node by node. Numbers are told apart by
/// the accessors for unsigned and signed integers; any other number is kept
/// as its text.
#[verifier::external_body]
fn json_of_value(value: serde_json::Value) -> (r: Json)
{
    match value {
        serde_json::Value::Null => Json::Null,
        serde_json::Value::Bool(b) => Json::Bool(b),
        serde_json::Value::Number(n) => match (n.as_u64(), n.as_i64()) {
            (Some(u), _) => Json::Unsigned(u),
            (None, Some(i)) => Json::Negative(i),
            (None, None) => Json::Float(n.to_string()),
        },
        serde_json::Value::String(s) => Json::Text(s),
        serde_json::Value::Array(a) => Json::Array(a.into_iter().map(json_of_value).collect()),
        serde_json::Value::Object(o) => Json::Object(
            o.into_iter().map(|(k, v)| (k, json_of_value(v))).collect(),
        ),
    }
}

/// `serde_json::from_str` into a value, converted to the library's tree. The
/// result is named `parsed_json`. The parser reads the compact text of a
/// plain value back as that value, as long as the value is nested in fewer
/// than 128 containers, its recursion limit. Behind the value it passes over
/// white space, so a line end there changes nothing.
#[verifier::external_body]
pub(crate) fn parse_json(text: &str) -> (r: Result<Json, String>)
    ensures
        json_result(r) == parsed_json(text@),
        reads_back(text@, r),
{
    match serde_json::from_str::<serde_json::Value>(text) {
        Ok(value) => Ok(json_of_value(value)),
        Err(error) => Err(error.to_string()),
    }
}

// ---------------------------------------------------------------------------
// Members
// ---------------------------------------------------------------------------

/// The position of the first member with a key, from a position on.
pub open spec fn member_position(
    members: Seq<(Seq<char>, JsonView)>,
    key: Seq<char>,
    from: int,
) -> Option<int>
    decreases members.len() - from,
{
    if from < 0 || from >= members.len() {
        None
    } else if members[from].0 == key {
        Some(from)
    } else {
        member_position(members, key, from + 1)
    }
}

/// The members with a value set: in place of the first with that key, or at
/// the end.
pub open spec fn with_member(
    members: Seq<(Seq<char>, JsonView)>,
    key: Seq<char>,
    value: JsonView,
) -> Seq<(Seq<char>, JsonView)> {
    match member_position(members, key, 0) {
        Some(i) => members.update(i, (key, value)),
        None => members.push((key, value)),
    }
}

/// The members but those with a key.
pub open spec fn without_member(members: Seq<(Seq<char>, JsonView)>, key: Seq<char>) -> Seq<
    (Seq<char>, JsonView),
>
    decreases members.len(),
{
    if members.len() == 0 {
        Seq::empty()
    } else if members.last().0 == key {
        without_member(members.drop_last(), key)
    } else {
        without_member(members.drop_last(), key).push(members.last())
    }
}

proof fn lemma_member_position(
    members: Seq<(Seq<char>, JsonView)>,
    key: Seq<char>,
    from: int,
    i: int,
)
    requires
        0 <= from <= i <= members.len(),
        forall|k: int| from <= k < i ==> (#[trigger] members[k]).0 != key,
        i < members.len() ==> members[i].0 == key,
    ensures
        member_position(members, key, from) == if i < members.len() {
            Some(i)
        } else {
            None
        },
    decreases i - from,
{
    if from < i {
        assert(members[from].0 != key);
        lemma_member_position(members, key, from + 1, i);
    }
}

/// Sets the value of a member: in place of the first with that key, or at the
/// end.
pub fn set_member(members: &mut Vec<(String, Json)>, key: &str, value: Json)
    ensures
        member_views(final(members)@) == with_member(
            member_views(old(members)@),
            key@,
            value@,
        ),
{
    let ghost before = members@;
    let ghost views = member_views(before);
    proof {
        lemma_member_views(before);
    }
    match member_index(members, key) {
        Some(i) => {
            proof {
                assert forall|k: int| 0 <= k < i implies (#[trigger] views[k]).0 != key@ by {
                    assert(before[k].0@ != key@);
                }
                lemma_member_position(views, key@, 0, i as int);
            }
            members.set(i, (key.to_owned(), value));
            proof {
                lemma_member_views(members@);
                assert(member_views(members@) =~= views.update(i as int, (key@, value@)));
            }
        },
        None => {
            proof {
                assert forall|k: int| 0 <= k < views.len() implies (#[trigger] views[k]).0
                    != key@ by {
                    assert(before[k].0@ != key@);
                }
                lemma_member_position(views, key@, 0, views.len() as int);
            }
            push_member(members, key, value);
        },
    }
}

/// The members but those with a key.
pub fn drop_member(members: Vec<(String, Json)>, key: &str) -> (r: Vec<(String, Json)>)
    ensures
        member_views(r@) == without_member(member_views(members@), key@),
{
    let ghost views = member_views(members@);
    let mut out: Vec<(String, Json)> = Vec::new();
    let mut i: usize = 0;
    proof {
        lemma_member_views(members@);
        assert(views.take(0) =~= Seq::<(Seq<char>, JsonView)>::empty());
    }
    while i < members.len()
        invariant
            i <= members@.len() == views.len(),
            forall|k: int|
                0 <= k < members@.len() ==> #[trigger] views[k] == (
                    members@[k].0@,
                    json_view(members@[k].1),
                ),
            member_views(out@) == without_member(views.take(i as int), key@),
        decreases members@.len() - i,
    {
        proof {
            assert(views.take(i + 1).drop_last() =~= views.take(i as int));
            assert(views.take(i + 1).last() == views[i as int]);
        }
        if !same_text(members[i].0.as_str(), key) {
            push_member(&mut out, members[i].0.as_str(), members[i].1.clone());
        }
        i = i + 1;
    }
    proof {
        assert(views.take(views.len() as int) =~= views);
    }
    out
}

} // verus!
