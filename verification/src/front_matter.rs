//! Front matter: fields at the start of a text file, between two lines of
//! dashes.

use vstd::prelude::*;

use crate::text::{
    begins_with, char_utf8_len, char_width, chars_of, find_from, first_match, has_prefix,
    lemma_first_match, same_text, substring, text_of_option, trim, trim_text,
};
use crate::tools::edit_diff::{normalize_to_lf, to_lf};

verus! {

/// Where the front matter of a text ends, if it has one: at a line of dashes
/// behind the dashes that the text starts with.
pub open spec fn front_end(text: Seq<char>) -> Option<int> {
    if begins_with(text, "---"@) {
        first_match(text, "\n---"@, 3)
    } else {
        None
    }
}

/// Whether the fields of the front matter can be cut out: a line feed, or any
/// other character of one byte, follows the dashes at the start and lies before
/// the dashes at the end.
pub open spec fn front_fits(content: Seq<char>) -> bool {
    let text = to_lf(content);
    match front_end(text) {
        Some(end) => end >= 4 && char_width(text[3]) == 1,
        None => true,
    }
}

/// The text of the fields, if there are any, and the text behind them.
pub open spec fn front_parts(content: Seq<char>) -> (Option<Seq<char>>, Seq<char>) {
    let text = to_lf(content);
    match front_end(text) {
        Some(end) => (Some(text.subrange(4, end)), trim(text.skip(end + 4))),
        None => (None, text),
    }
}

fn find_front_end(text: &str) -> (r: Option<usize>)
    ensures
        match r {
            Some(end) => front_end(text@) == Some(end as int) && 3 <= end && end + 4
                <= text@.len(),
            None => front_end(text@) is None,
        },
{
    proof {
        reveal_strlit("---");
        reveal_strlit("\n---");
    }
    if !has_prefix(text, "---") {
        return None;
    }
    let chars: Vec<char> = chars_of(text);
    let mark: Vec<char> = chars_of("\n---");
    proof {
        lemma_first_match(text@, "\n---"@, 3);
    }
    find_from(chars.as_slice(), mark.as_slice(), 3)
}

/// Whether the fields of the front matter can be cut out.
pub fn can_split_front(content: &str) -> (r: bool)
    ensures
        r == front_fits(content@),
{
    let text: String = normalize_to_lf(content);
    match find_front_end(text.as_str()) {
        Some(end) => end >= 4 && char_utf8_len(text.as_str().get_char(3)) == 1,
        None => true,
    }
}

/// The text of the fields, if there are any, and the text behind them.
pub fn split_front(content: &str) -> (r: (Option<String>, String))
    requires
        front_fits(content@),
    ensures
        text_of_option(r.0) == front_parts(content@).0,
        r.1@ == front_parts(content@).1,
{
    let text: String = normalize_to_lf(content);
    match find_front_end(text.as_str()) {
        Some(end) => {
            let n: usize = text.as_str().unicode_len();
            let fields: String = substring(text.as_str(), 4, end);
            let rest: String = substring(text.as_str(), end + 4, n);
            proof {
                assert(text@.subrange(end + 4, n as int) =~= text@.skip(end + 4));
            }
            (Some(fields), trim_text(rest.as_str()))
        },
        None => (None, text),
    }
}

// ---------------------------------------------------------------------------
// Values
// ---------------------------------------------------------------------------

/// A value of YAML. A number is kept as its text.
pub enum Yaml {
    Null,
    Bool(bool),
    Number(String),
    Text(String),
    Sequence(Vec<Yaml>),
    Mapping(Vec<(Yaml, Yaml)>),
    Tagged { tag: String, value: Box<Yaml> },
}

/// The mathematical value of a [`Yaml`].
pub enum YamlView {
    Null,
    Bool(bool),
    Number(Seq<char>),
    Text(Seq<char>),
    Sequence(Seq<YamlView>),
    Mapping(Seq<(YamlView, YamlView)>),
    Tagged { tag: Seq<char>, value: Box<YamlView> },
}

impl View for Yaml {
    type V = YamlView;

    open spec fn view(&self) -> YamlView {
        yaml_view(*self)
    }
}

pub open spec fn yaml_view(y: Yaml) -> YamlView
    decreases y,
{
    match y {
        Yaml::Null => YamlView::Null,
        Yaml::Bool(b) => YamlView::Bool(b),
        Yaml::Number(t) => YamlView::Number(t@),
        Yaml::Text(t) => YamlView::Text(t@),
        Yaml::Sequence(items) => YamlView::Sequence(yaml_views(items@)),
        Yaml::Mapping(pairs) => YamlView::Mapping(pair_views(pairs@)),
        Yaml::Tagged { tag, value } => YamlView::Tagged {
            tag: tag@,
            value: Box::new(yaml_view(*value)),
        },
    }
}

pub open spec fn yaml_views(s: Seq<Yaml>) -> Seq<YamlView>
    decreases s,
{
    if s.len() == 0 {
        Seq::empty()
    } else {
        yaml_views(s.drop_last()).push(yaml_view(s.last()))
    }
}

pub open spec fn pair_views(s: Seq<(Yaml, Yaml)>) -> Seq<(YamlView, YamlView)>
    decreases s,
{
    if s.len() == 0 {
        Seq::empty()
    } else {
        pair_views(s.drop_last()).push((yaml_view(s.last().0), yaml_view(s.last().1)))
    }
}

proof fn lemma_pair_views(s: Seq<(Yaml, Yaml)>)
    ensures
        pair_views(s).len() == s.len(),
        forall|i: int|
            0 <= i < s.len() ==> #[trigger] pair_views(s)[i] == (yaml_view(s[i].0), yaml_view(
                s[i].1,
            )),
    decreases s.len(),
{
    if s.len() > 0 {
        lemma_pair_views(s.drop_last());
    }
}

/// The value of the first pair whose key is a text, from a position on.
pub open spec fn paired_with(pairs: Seq<(YamlView, YamlView)>, key: Seq<char>, from: int) -> Option<
    YamlView,
>
    decreases pairs.len() - from,
{
    if from < 0 || from >= pairs.len() {
        None
    } else if pairs[from].0 == YamlView::Text(key) {
        Some(pairs[from].1)
    } else {
        paired_with(pairs, key, from + 1)
    }
}

impl YamlView {
    /// The value without its tags.
    pub open spec fn untagged(self) -> YamlView
        decreases self,
    {
        match self {
            YamlView::Tagged { value, .. } => value.untagged(),
            _ => self,
        }
    }

    /// A field of a mapping.
    pub open spec fn field(self, key: Seq<char>) -> Option<YamlView> {
        match self.untagged() {
            YamlView::Mapping(pairs) => paired_with(pairs, key, 0),
            _ => None,
        }
    }

    /// A field of a mapping that is a text.
    pub open spec fn text_field(self, key: Seq<char>) -> Option<Seq<char>> {
        match self.field(key) {
            Some(value) => match value.untagged() {
                YamlView::Text(text) => Some(text),
                _ => None,
            },
            None => None,
        }
    }
}

impl Yaml {
    fn untagged(&self) -> (r: &Yaml)
        ensures
            r@ == self@.untagged(),
        decreases self,
    {
        match self {
            Yaml::Tagged { value, .. } => value.untagged(),
            _ => self,
        }
    }

    /// A field of a mapping.
    pub fn field(&self, key: &str) -> (r: Option<&Yaml>)
        ensures
            match r {
                Some(value) => self@.field(key@) == Some(value@),
                None => self@.field(key@) is None,
            },
    {
        match self.untagged() {
            Yaml::Mapping(pairs) => {
                let ghost all = pair_views(pairs@);
                let mut i: usize = 0;
                proof {
                    lemma_pair_views(pairs@);
                }
                while i < pairs.len()
                    invariant
                        i <= pairs@.len() == all.len(),
                        all == pair_views(pairs@),
                        self@.untagged() == YamlView::Mapping(all),
                        paired_with(all, key@, 0) == paired_with(all, key@, i as int),
                    decreases pairs@.len() - i,
                {
                    proof {
                        lemma_pair_views(pairs@);
                    }
                    if let Yaml::Text(text) = &pairs[i].0 {
                        if same_text(text.as_str(), key) {
                            return Some(&pairs[i].1);
                        }
                    }
                    i = i + 1;
                }
                None
            },
            _ => None,
        }
    }

    /// A field of a mapping that is a text.
    pub fn text_field(&self, key: &str) -> (r: Option<String>)
        ensures
            text_of_option(r) == self@.text_field(key@),
    {
        match self.field(key) {
            Some(value) => match value.untagged() {
                Yaml::Text(text) => Some(text.clone()),
                _ => None,
            },
            None => None,
        }
    }

    /// Whether a field of a mapping is the truth value `true`.
    pub fn is_true(&self, key: &str) -> (r: bool)
        ensures
            r == (self@.field(key@) == Some(YamlView::Bool(true))),
    {
        match self.field(key) {
            Some(Yaml::Bool(b)) => *b,
            _ => false,
        }
    }
}

/// The outcome of parsing in terms of mathematical values.
pub open spec fn yaml_result(r: Result<Yaml, String>) -> Result<YamlView, Seq<char>> {
    match r {
        Ok(value) => Ok(value@),
        Err(message) => Err(message@),
    }
}

/// The value type of `serde_yaml`, carried from the parser to its conversion.
#[verifier::external_type_specification]
#[verifier::external_body]
pub struct ExYamlValue(serde_yaml::Value);

/// What `serde_yaml` reads in a text: a value, or the message of its error.
pub uninterp spec fn parsed_yaml(text: Seq<char>) -> Result<YamlView, Seq<char>>;

/// Converts a value of `serde_yaml` node by node. A number is kept as its text.
#[verifier::external_body]
fn yaml_of_value(value: serde_yaml::Value) -> (r: Yaml)
{
    match value {
        serde_yaml::Value::Null => Yaml::Null,
        serde_yaml::Value::Bool(b) => Yaml::Bool(b),
        serde_yaml::Value::Number(n) => Yaml::Number(n.to_string()),
        serde_yaml::Value::String(s) => Yaml::Text(s),
        serde_yaml::Value::Sequence(s) => Yaml::Sequence(s.into_iter().map(yaml_of_value).collect()),
        serde_yaml::Value::Mapping(m) => Yaml::Mapping(
            m.into_iter().map(|(k, v)| (yaml_of_value(k), yaml_of_value(v))).collect(),
        ),
        serde_yaml::Value::Tagged(t) => Yaml::Tagged {
            tag: t.tag.to_string(),
            value: Box::new(yaml_of_value(t.value)),
        },
    }
}

/// Calls `serde_yaml::from_str` for a value, converted to the library's tree: the
/// value, or the message of the parser's error. The result is named
/// `parsed_yaml`.
#[verifier::external_body]
fn parse_yaml(text: &str) -> (r: Result<Yaml, String>)
    ensures
        yaml_result(r) == parsed_yaml(text@),
{
    match serde_yaml::from_str::<serde_yaml::Value>(text) {
        Ok(value) => Ok(yaml_of_value(value)),
        Err(error) => Err(error.to_string()),
    }
}

// ---------------------------------------------------------------------------
// Fields
// ---------------------------------------------------------------------------

/// What the fields of the front matter hold: nothing where there is none.
pub open spec fn front_value(fields: Option<Seq<char>>) -> Result<YamlView, Seq<char>> {
    match fields {
        Some(yaml) => parsed_yaml(yaml),
        None => Ok(YamlView::Null),
    }
}

/// What the fields of the front matter hold.
pub fn read_front(fields: &Option<String>) -> (r: Result<Yaml, String>)
    ensures
        yaml_result(r) == front_value(text_of_option(*fields)),
{
    match fields {
        Some(yaml) => parse_yaml(yaml.as_str()),
        None => Ok(Yaml::Null),
    }
}

/// The outcome of reading a field in terms of mathematical values.
pub open spec fn field_result(r: Result<Option<String>, String>) -> Result<
    Option<Seq<char>>,
    Seq<char>,
> {
    match r {
        Ok(text) => Ok(text_of_option(text)),
        Err(message) => Err(message@),
    }
}

/// The text of a field, or why the fields cannot be read.
pub open spec fn field_of(front: Result<YamlView, Seq<char>>, key: Seq<char>) -> Result<
    Option<Seq<char>>,
    Seq<char>,
> {
    match front {
        Ok(value) => Ok(value.text_field(key)),
        Err(message) => Err(message),
    }
}

/// The text of a field, or why the fields cannot be read.
pub fn read_field(front: &Result<Yaml, String>, key: &str) -> (r: Result<Option<String>, String>)
    ensures
        field_result(r) == field_of(yaml_result(*front), key@),
{
    match front {
        Ok(value) => Ok(value.text_field(key)),
        Err(message) => Err(message.clone()),
    }
}

/// Whether a field is true; none is where the fields cannot be read.
pub open spec fn flag_of(front: Result<YamlView, Seq<char>>, key: Seq<char>) -> bool {
    front matches Ok(value) && value.field(key) == Some(YamlView::Bool(true))
}

/// Whether a field is true.
pub fn read_flag(front: &Result<Yaml, String>, key: &str) -> (r: bool)
    ensures
        r == flag_of(yaml_result(*front), key@),
{
    match front {
        Ok(value) => value.is_true(key),
        Err(_) => false,
    }
}

} // verus!
