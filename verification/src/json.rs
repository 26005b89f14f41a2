//! JSON values as the library reads them.
//!
//! Parsing is done by `serde_json`; its values are turned one for one into [`Json`], which the
//! rest of the library reads.
use vstd::prelude::*;
use vstd::utf8::*;

use serde_json::Value;

use crate::encoding;
use crate::numbers;
use crate::text;

verus! {

/// A number, in the forms in which it is read.
#[derive(Clone, Copy, Debug, PartialEq, Eq, Structural)]
pub struct JsonNumber {
    /// The number where it is an integer from 0 to 2^64 - 1.
    pub unsigned: Option<u64>,
    /// The number where it is an integer from -2^63 to 2^63 - 1.
    pub signed: Option<i64>,
    /// The nearest double precision number, cut off at the decimal point and kept within
    /// 0 and 2^64 - 1.
    pub whole: u64,
    /// The bits of the nearest double precision number.
    pub double: u64,
}

/// A JSON value.
#[derive(Debug)]
pub enum Json {
    /// `null`.
    Null,
    /// `true` or `false`.
    Bool(bool),
    /// A number.
    Number(JsonNumber),
    /// A string.
    Text(String),
    /// An array.
    List(Vec<Json>),
    /// An object: its members by name.
    Fields(Vec<(String, Json)>),
}

/// The model of a JSON value.
pub enum JsonView {
    Null,
    Bool(bool),
    Number(JsonNumber),
    Text(Seq<char>),
    List(Seq<JsonView>),
    Fields(Seq<(Seq<char>, JsonView)>),
}

impl Json {
    /// The model of the value.
    pub open spec fn model(self) -> JsonView
        decreases self,
    {
        match self {
            Json::Null => JsonView::Null,
            Json::Bool(b) => JsonView::Bool(b),
            Json::Number(n) => JsonView::Number(n),
            Json::Text(s) => JsonView::Text(s@),
            Json::List(items) => JsonView::List(
                Seq::new(
                    items@.len(),
                    |i: int|
                        if 0 <= i < items@.len() {
                            items@[i].model()
                        } else {
                            JsonView::Null
                        },
                ),
            ),
            Json::Fields(fields) => JsonView::Fields(
                Seq::new(
                    fields@.len(),
                    |i: int|
                        if 0 <= i < fields@.len() {
                            (fields@[i].0@, fields@[i].1.model())
                        } else {
                            (Seq::empty(), JsonView::Null)
                        },
                ),
            ),
        }
    }
}

impl View for Json {
    type V = JsonView;

    open spec fn view(&self) -> JsonView {
        self.model()
    }
}

/// `serde_json::Value`, an outside type.
#[verifier::external_type_specification]
#[verifier::external_body]
pub struct ExValue(serde_json::Value);

/// What a `serde_json::Value` holds.
pub uninterp spec fn json_contents(value: Value) -> JsonView;

/// What `serde_json::from_str` makes of a text: the value that it stands for, or what is said of a
/// text that is not JSON.
pub uninterp spec fn json_read(s: Seq<char>) -> Result<JsonView, Seq<char>>;

/// The value that a JSON text stands for, or nothing where it is not JSON.
pub open spec fn json_text(s: Seq<char>) -> Option<JsonView> {
    match json_read(s) {
        Ok(value) => Some(value),
        Err(_) => None,
    }
}

/// The JSON text of an object whose members are numbers.
pub open spec fn counts_text(members: Seq<(Seq<char>, u64)>) -> Seq<char> {
    "{"@ + text::joined(
        members.map_values(
            |m: (Seq<char>, u64)| quoted(m.0) + ":"@ + numbers::dec(m.1 as nat),
        ),
        ","@,
    ) + "}"@
}

/// No two members have one name, and the names are of ASCII letters and digits.
pub open spec fn plain_names(members: Seq<(Seq<char>, u64)>) -> bool {
    &&& forall|i: int, j: int|
        0 <= i < j < members.len() ==> (#[trigger] members[i]).0 != (#[trigger] members[j]).0
    &&& forall|i: int, k: int|
        0 <= i < members.len() && 0 <= k < members[i].0.len() ==> text::ascii_alphanumeric(
            #[trigger] members[i].0[k],
        )
}

/// The value has these numbers as members.
pub open spec fn has_counts(v: JsonView, members: Seq<(Seq<char>, u64)>) -> bool {
    forall|i: int|
        0 <= i < members.len() ==> v.unsigned_at((#[trigger] members[i]).0) == Some(members[i].1)
}

/// `serde_json::from_str`: reads a text as one JSON value, and describes the error where it is
/// none. The result depends on the text alone; which texts are JSON, what they stand for and what
/// is said of the others is named and not restated, but for this: the text of an object whose
/// members are numbers under different names of letters and digits is read, and the value has
/// these numbers. (`serde_json` gives an object under some names with a `$` a meaning of its own.)
#[verifier::external_body]
fn read_value(s: &str) -> (r: Result<Value, String>)
    ensures
        match r {
            Ok(value) => json_read(s@) == Ok::<_, Seq<char>>(json_contents(value)),
            Err(message) => json_read(s@) == Err::<JsonView, _>(message@),
        },
        forall|members: Seq<(Seq<char>, u64)>|
            #![trigger counts_text(members)]
            s@ == counts_text(members) && plain_names(members) ==> r is Ok && has_counts(
                json_contents(r->Ok_0),
                members,
            ),
{
    serde_json::from_str(s).map_err(|e: serde_json::Error| e.to_string())
}

/// Turns a `serde_json::Value` into a [`Json`] variant by variant, the numbers read by
/// `Number::as_u64`, `Number::as_i64` and `Number::as_f64`: the result holds what the value holds.
#[verifier::external_body]
fn json_of(value: &Value) -> (r: Json)
    ensures
        r@ == json_contents(*value),
{
    match value {
        Value::Null => Json::Null,
        Value::Bool(b) => Json::Bool(*b),
        Value::Number(n) => Json::Number(
            JsonNumber {
                unsigned: n.as_u64(),
                signed: n.as_i64(),
                whole: n.as_f64().map_or(0, |v| v as u64),
                double: n.as_f64().map_or(0, |v| v.to_bits()),
            },
        ),
        Value::String(s) => Json::Text(s.clone()),
        Value::Array(items) => Json::List(items.iter().map(json_of).collect()),
        Value::Object(m) => Json::Fields(m.iter().map(|(k, v)| (k.clone(), json_of(v))).collect()),
    }
}

/// The text of a JSON value, as `serde_json` writes it without white space.
pub uninterp spec fn json_written(v: JsonView) -> Seq<char>;

/// The text for a character of a JSON string.
pub open spec fn escaped_char(c: char) -> Seq<char> {
    if c == '"' {
        seq!['\\', '"']
    } else if c == '\\' {
        seq!['\\', '\\']
    } else if c == '\u{8}' {
        seq!['\\', 'b']
    } else if c == '\t' {
        seq!['\\', 't']
    } else if c == '\n' {
        seq!['\\', 'n']
    } else if c == '\u{c}' {
        seq!['\\', 'f']
    } else if c == '\r' {
        seq!['\\', 'r']
    } else if (c as int) < 32 {
        seq!['\\', 'u', '0', '0'] + numbers::hex_padded(c as nat, 2)
    } else {
        seq![c]
    }
}

/// The text for the characters of a JSON string.
pub open spec fn escaped_text(s: Seq<char>) -> Seq<char> {
    text::substituted(s, |c: char| escaped_char(c))
}

/// The JSON string for a text: in quotation marks, with quotation marks, backslashes and control
/// characters below the space escaped.
pub open spec fn quoted(s: Seq<char>) -> Seq<char> {
    seq!['"'] + escaped_text(s) + seq!['"']
}

/// `serde_json::Value::from` on a text: the JSON string that holds it.
#[verifier::external_body]
fn text_value(s: &str) -> (r: Value)
    ensures
        json_contents(r) == JsonView::Text(s@),
{
    Value::from(s)
}

/// `serde_json::Value`'s `to_string`: the compact text of the value, which depends on what the
/// value holds alone. For a string it is that string in quotation marks, escaped; for other values
/// it is named and not restated.
#[verifier::external_body]
fn value_text(value: &Value) -> (r: String)
    ensures
        r@ == json_written(json_contents(*value)),
        json_contents(*value) matches JsonView::Text(s) ==> r@ == quoted(s),
{
    value.to_string()
}

/// The JSON string for a text.
pub fn quote(s: &str) -> (r: String)
    ensures
        r@ == quoted(s@),
{
    value_text(&text_value(s))
}

/// Reads a text as one JSON value, and writes that value again without white space.
pub fn parse_and_write(s: &str) -> (r: Option<(Json, String)>)
    ensures
        match r {
            Some((value, written)) => json_text(s@) == Some(value@) && written@ == json_written(
                value@,
            ),
            None => json_text(s@) is None,
        },
{
    match read_value(s) {
        Ok(value) => Some((json_of(&value), value_text(&value))),
        Err(_) => None,
    }
}

/// Reads a text as one JSON value. The numbers of an object of numbers under different names of
/// letters and digits are read back.
pub fn parse_json(s: &str) -> (r: Option<Json>)
    ensures
        match r {
            Some(value) => json_text(s@) == Some(value@),
            None => json_text(s@) is None,
        },
        forall|members: Seq<(Seq<char>, u64)>|
            #![trigger counts_text(members)]
            s@ == counts_text(members) && plain_names(members) ==> r is Some && has_counts(
                r->0@,
                members,
            ),
{
    match read_value(s) {
        Ok(value) => Some(json_of(&value)),
        Err(_) => None,
    }
}

/// Reads a text as one JSON value, or says why it is none.
pub fn read_json(s: &str) -> (r: Result<Json, String>)
    ensures
        match r {
            Ok(value) => json_read(s@) == Ok::<_, Seq<char>>(value@),
            Err(message) => json_read(s@) == Err::<JsonView, _>(message@),
        },
{
    match read_value(s) {
        Ok(value) => Ok(json_of(&value)),
        Err(message) => Err(message),
    }
}

/// The value that bytes stand for: those of a JSON text in UTF-8.
pub open spec fn json_bytes(bytes: Seq<u8>) -> Option<JsonView> {
    if valid_utf8(bytes) {
        json_text(decode_utf8(bytes))
    } else {
        None
    }
}

/// Reads bytes as one JSON value in UTF-8.
pub fn parse_json_bytes(bytes: Vec<u8>) -> (r: Option<Json>)
    ensures
        match r {
            Some(value) => json_bytes(bytes@) == Some(value@),
            None => json_bytes(bytes@) is None,
        },
{
    match encoding::utf8_text(bytes) {
        Some(s) => parse_json(&s),
        None => None,
    }
}

// ---------------------------------------------------------------------------
// Reading a value
// ---------------------------------------------------------------------------

/// The member `key` among the members of an object.
pub open spec fn member(fields: Seq<(Seq<char>, JsonView)>, key: Seq<char>) -> Option<JsonView>
    decreases fields.len(),
{
    if fields.len() == 0 {
        None
    } else if fields[0].0 == key {
        Some(fields[0].1)
    } else {
        member(fields.skip(1), key)
    }
}

impl JsonView {
    /// The member `key` of an object; other values have none.
    pub open spec fn get(self, key: Seq<char>) -> Option<JsonView> {
        match self {
            JsonView::Fields(fields) => member(fields, key),
            _ => None,
        }
    }

    /// The text of a string.
    pub open spec fn text(self) -> Option<Seq<char>> {
        match self {
            JsonView::Text(s) => Some(s),
            _ => None,
        }
    }

    /// The number, where it is an integer from 0 to 2^64 - 1.
    pub open spec fn unsigned(self) -> Option<u64> {
        match self {
            JsonView::Number(n) => n.unsigned,
            _ => None,
        }
    }

    /// The elements of an array.
    pub open spec fn list(self) -> Option<Seq<JsonView>> {
        match self {
            JsonView::List(items) => Some(items),
            _ => None,
        }
    }

    /// The text of the member `key`, where it is a string.
    pub open spec fn text_at(self, key: Seq<char>) -> Option<Seq<char>> {
        match self.get(key) {
            Some(v) => v.text(),
            None => None,
        }
    }

    /// The number of the member `key`, where it is an integer from 0 to 2^64 - 1.
    pub open spec fn unsigned_at(self, key: Seq<char>) -> Option<u64> {
        match self.get(key) {
            Some(v) => v.unsigned(),
            None => None,
        }
    }

    /// The whole part of the member `key`, where it is a number.
    pub open spec fn whole_at(self, key: Seq<char>) -> Option<u64> {
        match self.get(key) {
            Some(JsonView::Number(n)) => Some(n.whole),
            _ => None,
        }
    }

    /// The elements of the member `key`, where it is an array.
    pub open spec fn list_at(self, key: Seq<char>) -> Option<Seq<JsonView>> {
        match self.get(key) {
            Some(v) => v.list(),
            None => None,
        }
    }
}

/// The models of a list of values.
pub open spec fn views(items: Seq<Json>) -> Seq<JsonView> {
    items.map_values(|v: Json| v@)
}

impl Json {
    /// The member `key` of an object; other values have none.
    pub fn get(&self, key: &str) -> (r: Option<&Json>)
        ensures
            match r {
                Some(v) => self@.get(key@) == Some(v@),
                None => self@.get(key@) is None,
            },
    {
        match self {
            Json::Fields(fields) => {
                let ghost fs = self@->Fields_0;
                let mut i: usize = 0;
                proof {
                    assert(fs.skip(0) =~= fs);
                }
                while i < fields.len()
                    invariant
                        self@ == JsonView::Fields(fs),
                        fs.len() == fields@.len(),
                        forall|k: int|
                            0 <= k < fs.len() ==> #[trigger] fs[k] == (
                                fields@[k].0@,
                                fields@[k].1@,
                            ),
                        i <= fields@.len(),
                        member(fs, key@) == member(fs.skip(i as int), key@),
                    decreases fields@.len() - i,
                {
                    proof {
                        assert(fs.skip(i as int)[0] == fs[i as int]);
                        assert(fs.skip(i as int).skip(1) =~= fs.skip(i + 1));
                    }
                    if text::same(&fields[i].0, key) {
                        return Some(&fields[i].1);
                    }
                    i += 1;
                }
                None
            },
            _ => None,
        }
    }

    /// The text of a string.
    pub fn text(&self) -> (r: Option<String>)
        ensures
            text::text_in(r) == self@.text(),
    {
        match self {
            Json::Text(s) => Some(s.clone()),
            _ => None,
        }
    }

    /// Whether the value is `null`.
    pub fn is_null(&self) -> (r: bool)
        ensures
            r == (self@ is Null),
    {
        match self {
            Json::Null => true,
            _ => false,
        }
    }

    /// The number, where it is an integer from -2^63 to 2^63 - 1.
    pub fn signed(&self) -> (r: Option<i64>)
        ensures
            r == match self@ {
                JsonView::Number(n) => n.signed,
                _ => None,
            },
    {
        match self {
            Json::Number(n) => n.signed,
            _ => None,
        }
    }

    /// The elements of an array.
    pub fn list(&self) -> (r: Option<&Vec<Json>>)
        ensures
            match r {
                Some(items) => self@.list() == Some(views(items@)),
                None => self@.list() is None,
            },
    {
        match self {
            Json::List(items) => {
                proof {
                    assert(self@->List_0 =~= views(items@));
                }
                Some(items)
            },
            _ => None,
        }
    }

    /// The text of the member `key`, where it is a string.
    pub fn text_at(&self, key: &str) -> (r: Option<String>)
        ensures
            text::text_in(r) == self@.text_at(key@),
    {
        match self.get(key) {
            Some(v) => v.text(),
            None => None,
        }
    }

    /// The number of the member `key`, where it is an integer from 0 to 2^64 - 1.
    pub fn unsigned_at(&self, key: &str) -> (r: Option<u64>)
        ensures
            r == self@.unsigned_at(key@),
    {
        match self.get(key) {
            Some(Json::Number(n)) => n.unsigned,
            _ => None,
        }
    }

    /// The whole part of the member `key`, where it is a number.
    pub fn whole_at(&self, key: &str) -> (r: Option<u64>)
        ensures
            r == self@.whole_at(key@),
    {
        match self.get(key) {
            Some(Json::Number(n)) => Some(n.whole),
            _ => None,
        }
    }

    /// The elements of the member `key`, where it is an array.
    pub fn list_at(&self, key: &str) -> (r: Option<&Vec<Json>>)
        ensures
            match r {
                Some(items) => self@.list_at(key@) == Some(views(items@)),
                None => self@.list_at(key@) is None,
            },
    {
        match self.get(key) {
            Some(v) => v.list(),
            None => None,
        }
    }
}

// ---------------------------------------------------------------------------
// Laws
// ---------------------------------------------------------------------------

/// A text without quotation marks, backslashes and control characters stands in quotation marks as
/// it is.
pub proof fn lemma_quoted_plain(s: Seq<char>)
    requires
        forall|i: int|
            0 <= i < s.len() ==> (#[trigger] s[i] as int) >= 32 && s[i] != '"' && s[i] != '\\',
    ensures
        quoted(s) == seq!['"'] + s + seq!['"'],
{
    lemma_escaped_plain(s);
}

proof fn lemma_escaped_plain(s: Seq<char>)
    requires
        forall|i: int|
            0 <= i < s.len() ==> (#[trigger] s[i] as int) >= 32 && s[i] != '"' && s[i] != '\\',
    ensures
        escaped_text(s) == s,
    decreases s.len(),
{
    if s.len() > 0 {
        lemma_escaped_plain(s.drop_last());
        assert(s =~= s.drop_last().push(s.last()));
    } else {
        assert(escaped_text(s) =~= s);
    }
}

/// A JSON string is one line of text: it holds no control character below the space, whatever
/// text it stands for.
pub proof fn law_quoted_is_one_line(s: Seq<char>)
    ensures
        forall|i: int| 0 <= i < quoted(s).len() ==> ' ' <= #[trigger] quoted(s)[i],
{
    lemma_escaped_text(s);
    assert forall|i: int| 0 <= i < quoted(s).len() implies ' ' <= #[trigger] quoted(s)[i] by {
        if 0 < i < quoted(s).len() - 1 {
            assert(quoted(s)[i] == escaped_text(s)[i - 1]);
        }
    }
}

proof fn lemma_escaped_text(s: Seq<char>)
    ensures
        forall|i: int| 0 <= i < escaped_text(s).len() ==> ' ' <= #[trigger] escaped_text(s)[i],
    decreases s.len(),
{
    if s.len() > 0 {
        lemma_escaped_text(s.drop_last());
        let front = escaped_text(s.drop_last());
        let last = escaped_char(s.last());
        lemma_escaped_char(s.last());
        assert(escaped_text(s) == front + last);
        assert forall|i: int| 0 <= i < escaped_text(s).len() implies ' ' <= #[trigger] escaped_text(
            s,
        )[i] by {
            if i < front.len() {
                assert(escaped_text(s)[i] == front[i]);
            } else {
                assert(escaped_text(s)[i] == last[i - front.len()]);
            }
        }
    }
}

proof fn lemma_escaped_char(c: char)
    ensures
        forall|i: int| 0 <= i < escaped_char(c).len() ==> ' ' <= #[trigger] escaped_char(c)[i],
{
    let e = escaped_char(c);
    if (c as int) < 32 && e.len() > 2 {
        let p = numbers::hex_padded(c as nat, 2);
        numbers::lemma_digits_of(c as nat, 16);
        numbers::lemma_zero_padded(numbers::digits_of(c as nat, 16), 2, 16);
        assert forall|i: int| 0 <= i < e.len() implies ' ' <= #[trigger] e[i] by {
            if i >= 4 {
                assert(e[i] == p[i - 4]);
                assert(0 <= numbers::digit_value(p[i - 4]) < 16);
            }
        }
    }
}

/// In a JSON string quotation marks and backslashes stand behind a backslash, line feeds, carriage
/// returns and tabs have letters of their own, and what is around them does not matter.
pub proof fn law_quoting(a: Seq<char>, b: Seq<char>)
    ensures
        quoted(a) == seq!['"'] + escaped_text(a) + seq!['"'],
        escaped_text(Seq::empty()).len() == 0,
        escaped_text(a + b) == escaped_text(a) + escaped_text(b),
        escaped_text(seq!['"']) == seq!['\\', '"'],
        escaped_text(seq!['\\']) == seq!['\\', '\\'],
        escaped_text(seq!['\n']) == seq!['\\', 'n'],
        escaped_text(seq!['\r']) == seq!['\\', 'r'],
        escaped_text(seq!['\t']) == seq!['\\', 't'],
{
    let f = |c: char| escaped_char(c);
    text::lemma_substituted_concat(a, b, f);
    lemma_escaped_alone('"');
    lemma_escaped_alone('\\');
    lemma_escaped_alone('\n');
    lemma_escaped_alone('\r');
    lemma_escaped_alone('\t');
}

proof fn lemma_escaped_alone(c: char)
    ensures
        escaped_text(seq![c]) == escaped_char(c),
{
    let one = seq![c];
    assert(one.drop_last() =~= Seq::<char>::empty());
    assert(text::substituted(one.drop_last(), |x: char| escaped_char(x)).len() == 0);
    assert(escaped_text(one) =~= escaped_char(c));
}

/// A member of an object is the first with its name; an object without it, and any other value, has
/// none.
pub proof fn law_member_is_found(
    before: Seq<(Seq<char>, JsonView)>,
    key: Seq<char>,
    value: JsonView,
    after: Seq<(Seq<char>, JsonView)>,
)
    requires
        forall|i: int| 0 <= i < before.len() ==> (#[trigger] before[i]).0 != key,
    ensures
        JsonView::Fields(before + seq![(key, value)] + after).get(key) == Some(value),
        JsonView::Fields(before).get(key) is None,
        value !is Fields ==> value.get(key) is None,
    decreases before.len(),
{
    let all = before + seq![(key, value)] + after;
    if before.len() == 0 {
        assert(all[0] == (key, value));
    } else {
        let rest = before.skip(1);
        assert(before[0].0 != key);
        assert forall|i: int| 0 <= i < rest.len() implies (#[trigger] rest[i]).0 != key by {
            assert(rest[i] == before[i + 1]);
        }
        law_member_is_found(rest, key, value, after);
        assert(all.skip(1) =~= rest + seq![(key, value)] + after);
        assert(all[0] == before[0]);
    }
}

/// What a member holds is read as what it is: a text as a text, a list as a list, a number as a
/// number, and nothing as anything else.
pub proof fn law_member_has_its_kind(v: JsonView, key: Seq<char>, s: Seq<char>, items: Seq<JsonView>)
    ensures
        v.get(key) == Some(JsonView::Text(s)) ==> v.text_at(key) == Some(s) && v.list_at(key) is None
            && v.unsigned_at(key) is None && v.whole_at(key) is None,
        v.get(key) == Some(JsonView::List(items)) ==> v.list_at(key) == Some(items) && v.text_at(
            key,
        ) is None && v.unsigned_at(key) is None && v.whole_at(key) is None,
        v.get(key) matches Some(JsonView::Number(n)) ==> v.unsigned_at(key) == n.unsigned
            && v.whole_at(key) == Some(n.whole) && v.text_at(key) is None && v.list_at(key) is None,
        v.get(key) is None ==> v.text_at(key) is None && v.list_at(key) is None && v.unsigned_at(
            key,
        ) is None && v.whole_at(key) is None,
{
}

} // verus!
