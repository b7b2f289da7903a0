//! JSON values: what they stand for, how they are read, built, parsed and printed.
use crate::dict::{entries_map, Dict};
use serde_json::Value;
use vstd::prelude::*;

verus! {

/// A JSON number: an integer that fits a machine word, or a fraction as its decimal text.
#[derive(Debug, PartialEq)]
pub enum Number {
    PosInt(u64),
    NegInt(i64),
    Float(String),
}

/// What a number stands for.
pub enum Num {
    PosInt(u64),
    NegInt(i64),
    Float(Seq<char>),
}

impl View for Number {
    type V = Num;

    open spec fn view(&self) -> Num {
        match self {
            Number::PosInt(n) => Num::PosInt(*n),
            Number::NegInt(n) => Num::NegInt(*n),
            Number::Float(s) => Num::Float(s@),
        }
    }
}

/// A JSON value.
#[derive(Debug, PartialEq)]
pub enum Json {
    Null,
    Bool(bool),
    Number(Number),
    Text(String),
    Array(Vec<Json>),
    Object(Dict<Json>),
}

/// What a value stands for: an object is a map, in no order.
#[verifier::ext_equal]
pub enum JsonView {
    Null,
    Bool(bool),
    Number(Num),
    Text(Seq<char>),
    Array(Seq<JsonView>),
    Object(Map<Seq<char>, JsonView>),
}

/// What the entries of an object stand for, the later entry for a key overriding the
/// earlier.
pub open spec fn object_view(entries: Seq<(String, Json)>) -> Map<Seq<char>, JsonView>
    decreases entries,
{
    if entries.len() == 0 {
        Map::empty()
    } else {
        let last = entries[entries.len() - 1];
        object_view(entries.subrange(0, entries.len() - 1)).insert(last.0@, last.1.json())
    }
}

/// What the items of an array stand for.
pub open spec fn array_view(items: Seq<Json>) -> Seq<JsonView>
    decreases items,
{
    Seq::new(
        items.len(),
        |i: int|
            if 0 <= i < items.len() {
                items[i].json()
            } else {
                JsonView::Null
            },
    )
}

impl Json {
    /// What the value stands for.
    pub open spec fn json(&self) -> JsonView
        decreases self,
    {
        match self {
            Json::Null => JsonView::Null,
            Json::Bool(b) => JsonView::Bool(*b),
            Json::Number(n) => JsonView::Number(n@),
            Json::Text(s) => JsonView::Text(s@),
            Json::Array(items) => JsonView::Array(array_view(items@)),
            Json::Object(d) => JsonView::Object(object_view(d.entries@)),
        }
    }
}

impl View for Json {
    type V = JsonView;

    open spec fn view(&self) -> JsonView {
        self.json()
    }
}

/// What an optional value stands for.
pub open spec fn opt_json(v: Option<Json>) -> Option<JsonView> {
    match v {
        Some(x) => Some(x@),
        None => None,
    }
}

impl JsonView {
    /// The value of a field, where this is an object that has it.
    pub open spec fn field(self, key: Seq<char>) -> Option<JsonView> {
        match self {
            JsonView::Object(m) => if m.contains_key(key) {
                Some(m[key])
            } else {
                None
            },
            _ => None,
        }
    }

    /// The text, where this is one.
    pub open spec fn as_text(self) -> Option<Seq<char>> {
        match self {
            JsonView::Text(s) => Some(s),
            _ => None,
        }
    }

    /// The items, where this is an array.
    pub open spec fn as_items(self) -> Option<Seq<JsonView>> {
        match self {
            JsonView::Array(items) => Some(items),
            _ => None,
        }
    }

    /// The text of a field, where there is one and it is text.
    pub open spec fn field_text(self, key: Seq<char>) -> Option<Seq<char>> {
        match self.field(key) {
            Some(v) => v.as_text(),
            None => None,
        }
    }

    /// The items of a field, where there is one and it is an array.
    pub open spec fn field_items(self, key: Seq<char>) -> Option<Seq<JsonView>> {
        match self.field(key) {
            Some(v) => v.as_items(),
            None => None,
        }
    }

    /// The truth value of a field, where there is one and it is a boolean.
    pub open spec fn field_bool(self, key: Seq<char>) -> Option<bool> {
        match self.field(key) {
            Some(JsonView::Bool(b)) => Some(b),
            _ => None,
        }
    }

    /// The number, where this is one that fits an unsigned word.
    pub open spec fn as_unsigned(self) -> Option<u64> {
        match self {
            JsonView::Number(Num::PosInt(n)) => Some(n),
            _ => None,
        }
    }
}

/// Reading a key of an object's entries reads it of the map they stand for.
pub proof fn lemma_object_entries(entries: Seq<(String, Json)>)
    ensures
        object_view(entries).dom() == entries_map(entries).dom(),
        forall|k: Seq<char>|
            entries_map(entries).contains_key(k) ==> object_view(entries)[k] == (
            #[trigger] entries_map(entries)[k])@,
    decreases entries.len(),
{
    if entries.len() > 0 {
        assert(entries.subrange(0, entries.len() - 1) =~= entries.drop_last());
        lemma_object_entries(entries.drop_last());
        assert(object_view(entries).dom() =~= entries_map(entries).dom());
    }
}

impl Dict<Json> {
    /// The object these entries stand for.
    pub open spec fn fields(&self) -> Map<Seq<char>, JsonView> {
        object_view(self.entries@)
    }

    /// Gives `key` the value `value`, in place of any it had.
    pub fn put(&mut self, key: &str, value: Json)
        ensures
            final(self).fields() == old(self).fields().insert(key@, value@),
    {
        let ghost before = self.entries@;
        self.remove(key);
        proof {
            lemma_object_entries(before);
            lemma_object_entries(self.entries@);
            let m = entries_map(self.entries@);
            assert(object_view(self.entries@) =~= object_view(before).remove(key@)) by {
                assert forall|k: Seq<char>| object_view(self.entries@).contains_key(k) implies
                    object_view(self.entries@)[k] == object_view(before)[k] by {
                    assert(m.contains_key(k));
                    assert(m[k] == entries_map(before)[k]);
                }
            }
        }
        let ghost mid = self.entries@;
        let ghost v = value@;
        self.entries.push((key.to_owned(), value));
        proof {
            assert(self.entries@.subrange(0, self.entries@.len() - 1) =~= mid);
            assert(object_view(before).remove(key@).insert(key@, v) =~= object_view(before).insert(
                key@,
                v,
            ));
        }
    }

    /// The field `key`.
    pub fn field(&self, key: &str) -> (r: Option<&Json>)
        ensures
            match r {
                Some(v) => self.fields().contains_key(key@) && v@ == self.fields()[key@],
                None => !self.fields().contains_key(key@),
            },
    {
        proof {
            lemma_object_entries(self.entries@);
        }
        self.get(key)
    }
}

impl Json {
    /// A text value.
    pub fn text(s: &str) -> (r: Json)
        ensures
            r@ == JsonView::Text(s@),
    {
        Json::Text(s.to_owned())
    }

    /// A number.
    pub fn number(n: u64) -> (r: Json)
        ensures
            r@ == JsonView::Number(Num::PosInt(n)),
    {
        Json::Number(Number::PosInt(n))
    }

    /// The value of a field, where this is an object that has it.
    pub fn get(&self, key: &str) -> (r: Option<&Json>)
        ensures
            match r {
                Some(v) => self@.field(key@) == Some(v@),
                None => self@.field(key@) is None,
            },
    {
        match self {
            Json::Object(d) => d.field(key),
            _ => None,
        }
    }

    /// The text, where this is one.
    pub fn as_str(&self) -> (r: Option<&str>)
        ensures
            match r {
                Some(s) => self@.as_text() == Some(s@),
                None => self@.as_text() is None,
            },
    {
        match self {
            Json::Text(s) => Some(s.as_str()),
            _ => None,
        }
    }

    /// The items, where this is an array.
    pub fn as_array(&self) -> (r: Option<&Vec<Json>>)
        ensures
            match r {
                Some(items) => self@.as_items() == Some(array_view(items@)),
                None => self@.as_items() is None,
            },
    {
        match self {
            Json::Array(items) => Some(items),
            _ => None,
        }
    }

    /// The truth value, where this is a boolean.
    pub fn as_bool(&self) -> (r: Option<bool>)
        ensures
            match r {
                Some(b) => self@ == JsonView::Bool(b),
                None => !(self@ is Bool),
            },
    {
        match self {
            Json::Bool(b) => Some(*b),
            _ => None,
        }
    }

    /// The number, where this is one that fits an unsigned word.
    pub fn as_u64(&self) -> (r: Option<u64>)
        ensures
            r == self@.as_unsigned(),
    {
        match self {
            Json::Number(Number::PosInt(n)) => Some(*n),
            _ => None,
        }
    }

    /// Whether this is `null`.
    pub fn is_null(&self) -> (r: bool)
        ensures
            r == (self@ == JsonView::Null),
    {
        match self {
            Json::Null => true,
            _ => false,
        }
    }

    /// The text of a field, where there is one and it is text.
    pub fn get_str(&self, key: &str) -> (r: Option<&str>)
        ensures
            match r {
                Some(s) => self@.field_text(key@) == Some(s@),
                None => self@.field_text(key@) is None,
            },
    {
        match self.get(key) {
            Some(v) => v.as_str(),
            None => None,
        }
    }

    /// The items of a field, where there is one and it is an array.
    pub fn get_array(&self, key: &str) -> (r: Option<&Vec<Json>>)
        ensures
            match r {
                Some(items) => self@.field_items(key@) == Some(array_view(items@)),
                None => self@.field_items(key@) is None,
            },
    {
        match self.get(key) {
            Some(v) => v.as_array(),
            None => None,
        }
    }

    /// The truth value of a field, where there is one and it is a boolean.
    pub fn get_bool(&self, key: &str) -> (r: Option<bool>)
        ensures
            r == self@.field_bool(key@),
    {
        match self.get(key) {
            Some(v) => v.as_bool(),
            None => None,
        }
    }
}

impl Clone for Number {
    fn clone(&self) -> (r: Number)
        ensures
            r@ == self@,
    {
        match self {
            Number::PosInt(n) => Number::PosInt(*n),
            Number::NegInt(n) => Number::NegInt(*n),
            Number::Float(s) => Number::Float(s.clone()),
        }
    }
}

impl Clone for Json {
    fn clone(&self) -> (r: Json)
        ensures
            r@ == self@,
        decreases self,
    {
        match self {
            Json::Null => Json::Null,
            Json::Bool(b) => Json::Bool(*b),
            Json::Number(n) => Json::Number(n.clone()),
            Json::Text(s) => Json::Text(s.clone()),
            Json::Array(items) => {
                let mut out: Vec<Json> = Vec::new();
                let mut i: usize = 0;
                while i < items.len()
                    invariant
                        i <= items@.len(),
                        out@.len() == i,
                        forall|j: int| 0 <= j < i ==> (#[trigger] out@[j])@ == items@[j]@,
                        decreases_to!(self => items@),
                    decreases items@.len() - i,
                {
                    out.push(items[i].clone());
                    i += 1;
                }
                assert(array_view(out@) =~= array_view(items@));
                Json::Array(out)
            },
            Json::Object(d) => {
                let mut out: Vec<(String, Json)> = Vec::new();
                let mut i: usize = 0;
                while i < d.entries.len()
                    invariant
                        i <= d.entries@.len(),
                        out@.len() == i,
                        object_view(out@) == object_view(d.entries@.take(i as int)),
                        decreases_to!(self => d.entries@),
                    decreases d.entries@.len() - i,
                {
                    let ghost before = out@;
                    out.push((d.entries[i].0.clone(), d.entries[i].1.clone()));
                    proof {
                        let all = d.entries@;
                        assert(out@.subrange(0, out@.len() - 1) =~= before);
                        assert(all.take(i + 1).subrange(0, i as int) =~= all.take(i as int));
                    }
                    i += 1;
                }
                assert(d.entries@.take(d.entries@.len() as int) =~= d.entries@);
                Json::Object(Dict { entries: out })
            },
        }
    }
}

/// A tree of `serde_json`, which this library only carries from one call to the next.
#[verifier::external_type_specification]
#[verifier::external_body]
pub struct ExSerdeValue(serde_json::Value);

/// What `serde_json::from_str` reads in a text: the value, or what it says is wrong with the
/// text and whether that is only that the text ends too early.
pub uninterp spec fn parsed_json(text: Seq<char>) -> Result<JsonView, (Seq<char>, bool)>;

/// What `serde_json::from_str` reads in a text as a map from names to texts, where the text
/// is one.
pub uninterp spec fn parsed_texts(text: Seq<char>) -> Option<Map<Seq<char>, Seq<char>>>;

/// What `serde_json::to_string` writes for a value.
pub uninterp spec fn json_text(v: JsonView) -> Seq<char>;

/// Why a text is not JSON.
#[derive(Debug, PartialEq)]
pub struct ParseFailure {
    /// What is wrong, and where.
    pub message: String,
    /// Whether the text only ends too early.
    pub truncated: bool,
}

/// A tree of `serde_json`, variant by variant. A fraction is carried as the text that
/// `serde_json` prints for it. Nothing is claimed of it alone: what it is used for is
/// claimed by [`from_str`].
#[verifier::external_body]
fn from_serde(v: serde_json::Value) -> (r: Json) {
    match v {
        Value::Null => Json::Null,
        Value::Bool(b) => Json::Bool(b),
        Value::Number(n) => Json::Number(match (n.as_u64(), n.as_i64()) {
            (Some(u), _) => Number::PosInt(u),
            (None, Some(i)) => Number::NegInt(i),
            (None, None) => Number::Float(n.to_string()),
        }),
        Value::String(s) => Json::Text(s),
        Value::Array(items) => Json::Array(items.into_iter().map(from_serde).collect()),
        Value::Object(m) => Json::Object(
            Dict { entries: m.into_iter().map(|(k, x)| (k, from_serde(x))).collect() },
        ),
    }
}

/// A number for `serde_json`: an integer as it is, and a fraction as `serde_json::Number`
/// holds the one its text reads as. Nothing is claimed of it alone, as of [`to_serde`].
#[verifier::external_body]
fn number_to_serde(n: &Number) -> (r: serde_json::Value) {
    match n {
        Number::PosInt(u) => serde_json::Value::from(*u),
        Number::NegInt(i) => serde_json::Value::from(*i),
        Number::Float(s) => s.parse().ok().and_then(serde_json::Number::from_f64).map_or(
            serde_json::Value::Null,
            serde_json::Value::Number,
        ),
    }
}

/// A tree for `serde_json`, variant by variant. The entries of an object go in one by one with
/// `serde_json::Map::insert`, which updates the value of a key that is there, so that of two
/// entries for a key the later stays. Nothing is claimed of it alone: what it is used for is
/// claimed by [`to_string`].
#[verifier::external_body]
fn to_serde(v: &Json) -> (r: serde_json::Value) {
    match v {
        Json::Null => serde_json::Value::Null,
        Json::Bool(b) => serde_json::Value::Bool(*b),
        Json::Number(n) => number_to_serde(n),
        Json::Text(s) => serde_json::Value::String(s.clone()),
        Json::Array(items) => serde_json::Value::Array(items.iter().map(to_serde).collect()),
        Json::Object(d) => {
            let mut fields = serde_json::Map::new();
            for (k, x) in d.entries.iter() {
                fields.insert(k.clone(), to_serde(x));
            }
            serde_json::Value::Object(fields)
        },
    }
}

/// `serde_json::from_str`, read into a value: what it returns depends on the text alone.
#[verifier::external_body]
fn from_str(text: &str) -> (r: Result<Json, (String, bool)>)
    ensures
        match r {
            Ok(v) => parsed_json(text@) == Ok::<JsonView, (Seq<char>, bool)>(v@),
            Err(e) => parsed_json(text@) == Err::<JsonView, (Seq<char>, bool)>((e.0@, e.1)),
        },
{
    serde_json::from_str::<serde_json::Value>(text).map(from_serde).map_err(
        |e| (e.to_string(), e.is_eof()),
    )
}

/// The object whose fields are these texts.
pub open spec fn text_object(m: Map<Seq<char>, Seq<char>>) -> JsonView {
    JsonView::Object(m.map_values(|s: Seq<char>| JsonView::Text(s)))
}

/// `serde_json::from_str`, read into a map from names to texts: what it returns depends on
/// the text alone. What it reads is also what the text is as a value, an object of texts in
/// which the later of two entries for a name counts. It refuses a text that holds anything
/// but texts in any entry, one that a later entry overrides among them: no more is claimed
/// of which texts it accepts.
#[verifier::external_body]
pub(crate) fn parse_texts(text: &str) -> (r: Option<Dict<String>>)
    ensures
        match r {
            Some(d) => parsed_texts(text@) == Some(d.texts()) && parsed_json(text@) == Ok::<
                JsonView,
                (Seq<char>, bool),
            >(text_object(d.texts())),
            None => parsed_texts(text@) is None,
        },
{
    serde_json::from_str::<std::collections::BTreeMap<String, String>>(text).ok().map(
        |m| Dict { entries: m.into_iter().collect() },
    )
}

/// `serde_json::to_string`: what it writes depends on what the value stands for alone.
/// It does not fail on a tree of JSON values.
#[verifier::external_body]
fn to_string(v: &Json) -> (r: String)
    ensures
        r@ == json_text(v@),
{
    serde_json::to_string(&to_serde(v)).unwrap_or_default()
}

/// Reads a text as JSON.
pub fn parse(text: &str) -> (r: Result<Json, ParseFailure>)
    ensures
        match r {
            Ok(v) => parsed_json(text@) == Ok::<JsonView, (Seq<char>, bool)>(v@),
            Err(e) => parsed_json(text@) == Err::<JsonView, (Seq<char>, bool)>((e.message@, e.truncated)),
        },
{
    match from_str(text) {
        Ok(v) => Ok(v),
        Err((message, truncated)) => Err(ParseFailure { message, truncated }),
    }
}

/// Writes a value as JSON text.
pub fn print(v: &Json) -> (r: String)
    ensures
        r@ == json_text(v@),
{
    to_string(v)
}

/// A value is read as what it is: a field where an object has it, and a text, a list, a truth or
/// a count only where it is one.
pub proof fn law_a_value_is_read_as_what_it_is(v: JsonView, key: Seq<char>)
    ensures
        v is Object && v->Object_0.contains_key(key) ==> v.field(key) == Some(v->Object_0[key]),
        !(v is Object) || !v->Object_0.contains_key(key) ==> v.field(key) is None,
        v is Text ==> v.as_text() == Some(v->Text_0),
        !(v is Text) ==> v.as_text() is None,
        v is Array ==> v.as_items() == Some(v->Array_0),
        !(v is Array) ==> v.as_items() is None,
        forall|n: u64| v.as_unsigned() == Some(n) <==> v == #[trigger] number_view(n),
        v.field_text(key) == match v.field(key) {
            Some(JsonView::Text(s)) => Some(s),
            _ => None,
        },
        v.field_items(key) == match v.field(key) {
            Some(JsonView::Array(items)) => Some(items),
            _ => None,
        },
        v.field_bool(key) == match v.field(key) {
            Some(JsonView::Bool(b)) => Some(b),
            _ => None,
        },
{
}

/// A count as a value.
pub open spec fn number_view(n: u64) -> JsonView {
    JsonView::Number(Num::PosInt(n))
}

/// An object holds its entries, the last for a key counting, and a list its items in order.
pub proof fn law_a_tree_stands_for_what_it_holds(
    entries: Seq<(String, Json)>,
    e: (String, Json),
    items: Seq<Json>,
    i: int,
)
    ensures
        object_view(Seq::empty()) == Map::<Seq<char>, JsonView>::empty(),
        object_view(entries.push(e)) == object_view(entries).insert(e.0@, e.1@),
        array_view(items).len() == items.len(),
        0 <= i < items.len() ==> array_view(items)[i] == items[i]@,
{
    assert(entries.push(e).subrange(0, entries.len() as int) =~= entries);
}

} // verus!
