//! JSON values: a type of the library's own, read from text and written to it
//! by `serde_json`.

use crate::text::str_eq;
use vstd::prelude::*;

verus! {

/// Numbers that fit are `Uint`; every other number keeps its text.
#[derive(Debug)]
pub enum Json {
    Null,
    Bool(bool),
    Uint(u64),
    Number(String),
    Str(String),
    Arr(Vec<Json>),
    Obj(Vec<(String, Json)>),
}

pub enum JsonView {
    Null,
    Bool(bool),
    Uint(u64),
    Number(Seq<char>),
    Str(Seq<char>),
    Arr(Seq<JsonView>),
    Obj(Seq<(Seq<char>, JsonView)>),
}

pub open spec fn json_view(value: Json) -> JsonView
    decreases value,
{
    match value {
        Json::Null => JsonView::Null,
        Json::Bool(b) => JsonView::Bool(b),
        Json::Uint(n) => JsonView::Uint(n),
        Json::Number(text) => JsonView::Number(text@),
        Json::Str(text) => JsonView::Str(text@),
        Json::Arr(items) => JsonView::Arr(list_view(items@)),
        Json::Obj(fields) => JsonView::Obj(fields_view(fields@)),
    }
}

pub open spec fn list_view(items: Seq<Json>) -> Seq<JsonView>
    decreases items,
{
    if items.len() == 0 {
        Seq::empty()
    } else {
        list_view(items.drop_last()).push(json_view(items.last()))
    }
}

pub open spec fn fields_view(fields: Seq<(String, Json)>) -> Seq<(Seq<char>, JsonView)>
    decreases fields,
{
    if fields.len() == 0 {
        Seq::empty()
    } else {
        fields_view(fields.drop_last()).push((fields.last().0@, json_view(fields.last().1)))
    }
}

impl View for Json {
    type V = JsonView;

    open spec fn view(&self) -> JsonView {
        json_view(*self)
    }
}

pub proof fn lemma_list_view(items: Seq<Json>)
    ensures
        list_view(items).len() == items.len(),
        forall|i: int| 0 <= i < items.len() ==> #[trigger] list_view(items)[i] == items[i]@,
    decreases items.len(),
{
    if items.len() > 0 {
        lemma_list_view(items.drop_last());
        assert forall|i: int| 0 <= i < items.len() implies #[trigger] list_view(items)[i] == items[i]@ by {
            if i < items.len() - 1 {
                assert(items.drop_last()[i] == items[i]);
            }
        }
    }
}

pub proof fn lemma_fields_view(fields: Seq<(String, Json)>)
    ensures
        fields_view(fields).len() == fields.len(),
        forall|i: int|
            0 <= i < fields.len() ==> #[trigger] fields_view(fields)[i] == (
                fields[i].0@,
                fields[i].1@,
            ),
    decreases fields.len(),
{
    if fields.len() > 0 {
        lemma_fields_view(fields.drop_last());
        assert forall|i: int| 0 <= i < fields.len() implies #[trigger] fields_view(fields)[i] == (
            fields[i].0@,
            fields[i].1@,
        ) by {
            if i < fields.len() - 1 {
                assert(fields.drop_last()[i] == fields[i]);
            }
        }
    }
}

/// The value under `key` among `fields`: that of the first field of this name.
pub open spec fn field(fields: Seq<(Seq<char>, JsonView)>, key: Seq<char>) -> Option<JsonView>
    decreases fields.len(),
{
    if fields.len() == 0 {
        None
    } else if fields[0].0 == key {
        Some(fields[0].1)
    } else {
        field(fields.subrange(1, fields.len() as int), key)
    }
}

impl JsonView {
    pub open spec fn get(self, key: Seq<char>) -> Option<JsonView> {
        match self {
            JsonView::Obj(fields) => field(fields, key),
            _ => None,
        }
    }

    pub open spec fn text(self) -> Option<Seq<char>> {
        match self {
            JsonView::Str(text) => Some(text),
            _ => None,
        }
    }
}

impl JsonView {
    /// The object without fields.
    pub open spec fn object() -> JsonView {
        JsonView::Obj(Seq::empty())
    }

    /// The object with one more field, written last.
    pub open spec fn with(self, key: Seq<char>, value: JsonView) -> JsonView {
        match self {
            JsonView::Obj(fields) => JsonView::Obj(fields.push((key, value))),
            other => other,
        }
    }

    /// The object with this field, in the place of the first of its name.
    pub open spec fn set(self, key: Seq<char>, value: JsonView) -> JsonView {
        match self {
            JsonView::Obj(fields) => JsonView::Obj(
                match place_of(fields, key) {
                    Some(i) => fields.update(i, (key, value)),
                    None => fields.push((key, value)),
                },
            ),
            other => other,
        }
    }

    pub open spec fn with_str(self, key: Seq<char>, text: Seq<char>) -> JsonView {
        self.with(key, JsonView::Str(text))
    }

    pub open spec fn text_under(self, key: Seq<char>) -> Option<Seq<char>> {
        match self.get(key) {
            Some(value) => value.text(),
            None => None,
        }
    }

    pub open spec fn number_under(self, key: Seq<char>) -> Option<u64> {
        match self.get(key) {
            Some(JsonView::Uint(n)) => Some(n),
            _ => None,
        }
    }
}

proof fn lemma_field_pushed(fields: Seq<(Seq<char>, JsonView)>, key: Seq<char>, value: JsonView, other: Seq<char>)
    ensures
        field(fields.push((key, value)), other) == (match field(fields, other) {
            Some(found) => Some(found),
            None => if other == key {
                Some(value)
            } else {
                None
            },
        }),
    decreases fields.len(),
{
    reveal_with_fuel(field, 2);
    let all = fields.push((key, value));
    if fields.len() == 0 {
        assert(all[0] == (key, value));
        assert(all.subrange(1, all.len() as int) =~= Seq::<(Seq<char>, JsonView)>::empty());
    } else {
        let rest = fields.subrange(1, fields.len() as int);
        assert(all.subrange(1, all.len() as int) =~= rest.push((key, value)));
        assert(all[0] == fields[0]);
        lemma_field_pushed(rest, key, value, other);
    }
}

/// A field that is written behind the others is found under its name, unless one
/// before it has that name; every other name is found as before.
pub broadcast proof fn law_field_is_found(v: JsonView, key: Seq<char>, value: JsonView, other: Seq<char>)
    requires
        v is Obj,
    ensures
        (#[trigger] v.with(key, value).get(other)) == (match v.get(other) {
            Some(found) => Some(found),
            None => if other == key {
                Some(value)
            } else {
                None
            },
        }),
{
    lemma_field_pushed(v->Obj_0, key, value, other);
}

/// The place of the first field of this name.
pub open spec fn place_of(fields: Seq<(Seq<char>, JsonView)>, key: Seq<char>) -> Option<int>
    decreases fields.len(),
{
    if fields.len() == 0 {
        None
    } else {
        match place_of(fields.drop_last(), key) {
            Some(i) => Some(i),
            None => if fields.last().0 == key {
                Some(fields.len() - 1)
            } else {
                None
            },
        }
    }
}

proof fn lemma_place_stays(fields: Seq<(Seq<char>, JsonView)>, key: Seq<char>, n: int)
    requires
        0 <= n <= fields.len(),
        place_of(fields.take(n), key) is Some,
    ensures
        place_of(fields, key) == place_of(fields.take(n), key),
    decreases fields.len() - n,
{
    if n < fields.len() {
        assert(fields.take(n + 1).drop_last() =~= fields.take(n));
        lemma_place_stays(fields, key, n + 1);
    } else {
        assert(fields.take(n) =~= fields);
    }
}

/// An optional value, by its view.
pub open spec fn opt_json(value: Option<&Json>) -> Option<JsonView> {
    match value {
        Some(v) => Some(v@),
        None => None,
    }
}

pub(crate) proof fn lemma_arr_decreases(value: Json, i: int)
    requires
        value is Arr,
        0 <= i < value->Arr_0@.len(),
    ensures
        decreases_to!(value => value->Arr_0@[i]),
{
    assert(decreases_to!(value => value->Arr_0));
    assert(decreases_to!(value->Arr_0 => value->Arr_0@));
    assert(decreases_to!(value->Arr_0@ => value->Arr_0@[i]));
}

pub(crate) proof fn lemma_obj_decreases(value: Json, i: int)
    requires
        value is Obj,
        0 <= i < value->Obj_0@.len(),
    ensures
        decreases_to!(value => value->Obj_0@[i].1),
{
    assert(decreases_to!(value => value->Obj_0));
    assert(decreases_to!(value->Obj_0 => value->Obj_0@));
    assert(decreases_to!(value->Obj_0@ => value->Obj_0@[i]));
    assert(decreases_to!(value->Obj_0@[i] => value->Obj_0@[i].1));
}

impl Json {
    pub fn get(&self, key: &str) -> (r: Option<&Json>)
        ensures
            opt_json(r) == self@.get(key@),
    {
        match self {
            Json::Obj(fields) => {
                let mut i: usize = 0;
                let ghost all = fields_view(fields@);
                proof {
                    lemma_fields_view(fields@);
                    assert(all.subrange(0, all.len() as int) =~= all);
                }
                while i < fields.len()
                    invariant
                        i <= fields@.len(),
                        all == fields_view(fields@),
                        self@ == JsonView::Obj(all),
                        all.len() == fields@.len(),
                        forall|j: int|
                            0 <= j < fields@.len() ==> #[trigger] all[j] == (
                                fields@[j].0@,
                                fields@[j].1@,
                            ),
                        field(all, key@) == field(all.subrange(i as int, all.len() as int), key@),
                    decreases fields@.len() - i,
                {
                    let ghost rest = all.subrange(i as int, all.len() as int);
                    assert(rest[0] == all[i as int]);
                    assert(all[i as int] == (fields@[i as int].0@, fields@[i as int].1@));
                    if str_eq(fields[i].0.as_str(), key) {
                        return Some(&fields[i].1);
                    }
                    assert(rest.subrange(1, rest.len() as int) =~= all.subrange(
                        i + 1,
                        all.len() as int,
                    ));
                    i = i + 1;
                }
                None
            },
            _ => None,
        }
    }

    pub fn as_str(&self) -> (r: Option<&String>)
        ensures
            match r {
                Some(text) => self@ == JsonView::Str(text@),
                None => self@.text() is None,
            },
    {
        match self {
            Json::Str(text) => Some(text),
            _ => None,
        }
    }

    pub fn as_u64(&self) -> (r: Option<u64>)
        ensures
            match r {
                Some(n) => self@ == JsonView::Uint(n),
                None => !(self@ is Uint),
            },
    {
        match self {
            Json::Uint(n) => Some(*n),
            _ => None,
        }
    }

    pub fn as_array(&self) -> (r: Option<&Vec<Json>>)
        ensures
            match r {
                Some(items) => self@ == JsonView::Arr(list_view(items@)),
                None => !(self@ is Arr),
            },
    {
        match self {
            Json::Arr(items) => Some(items),
            _ => None,
        }
    }

    pub fn as_bool(&self) -> (r: Option<bool>)
        ensures
            match r {
                Some(b) => self@ == JsonView::Bool(b),
                None => !(self@ is Bool),
            },
    {
        match self {
            Json::Bool(b) => Some(*b),
            _ => None,
        }
    }

    pub fn as_object(&self) -> (r: Option<&Vec<(String, Json)>>)
        ensures
            match r {
                Some(fields) => self@ == JsonView::Obj(fields_view(fields@)),
                None => !(self@ is Obj),
            },
    {
        match self {
            Json::Obj(fields) => Some(fields),
            _ => None,
        }
    }

    /// The text under `key`, where there is one.
    pub fn text_at(&self, key: &str) -> (r: Option<&String>)
        ensures
            (match r {
                Some(text) => Some(text@),
                None => None,
            }) == self@.text_under(key@),
    {
        match self.get(key) {
            Some(value) => value.as_str(),
            None => None,
        }
    }

    /// The number under `key`, where there is one that fits.
    pub fn number_at(&self, key: &str) -> (r: Option<u64>)
        ensures
            r == self@.number_under(key@),
    {
        match self.get(key) {
            Some(value) => value.as_u64(),
            None => None,
        }
    }

    pub fn string(text: &str) -> (r: Json)
        ensures
            r@ == JsonView::Str(text@),
    {
        Json::Str(text.to_owned())
    }

    pub fn array(items: Vec<Json>) -> (r: Json)
        ensures
            r@ == JsonView::Arr(list_view(items@)),
    {
        Json::Arr(items)
    }

    /// The object without fields.
    pub fn object() -> (r: Json)
        ensures
            r@ == JsonView::object(),
    {
        let r = Json::Obj(Vec::new());
        assert(fields_view(Seq::<(String, Json)>::empty()) =~= Seq::empty());
        r
    }

    /// The object with this field, in the place of the first of its name.
    pub fn set(self, key: &str, value: Json) -> (r: Json)
        ensures
            r@ == self@.set(key@, value@),
    {
        match self {
            Json::Obj(fields) => {
                let mut fields = fields;
                let ghost before = fields@;
                let mut i: usize = 0;
                proof {
                    lemma_fields_view(fields@);
                    assert(fields_view(fields@).take(0) =~= Seq::<(Seq<char>, JsonView)>::empty());
                }
                while i < fields.len() && !str_eq(fields[i].0.as_str(), key)
                    invariant
                        fields@ == before,
                        i <= fields@.len(),
                        place_of(fields_view(before).take(i as int), key@) is None,
                    decreases fields@.len() - i,
                {
                    proof {
                        lemma_fields_view(before);
                        let all = fields_view(before);
                        assert(all.take(i + 1).drop_last() =~= all.take(i as int));
                        assert(all[i as int] == (before[i as int].0@, before[i as int].1@));
                    }
                    i = i + 1;
                }
                let ghost v = value@;
                if i < fields.len() {
                    let name = fields[i].0.clone();
                    fields.set(i, (name, value));
                    proof {
                        let all = fields_view(before);
                        lemma_fields_view(before);
                        lemma_fields_view(fields@);
                        assert(all.take(i + 1).drop_last() =~= all.take(i as int));
                        assert(all[i as int] == (before[i as int].0@, before[i as int].1@));
                        lemma_place_stays(all, key@, i + 1);
                        assert forall|j: int| 0 <= j < before.len() implies #[trigger] fields_view(
                            fields@,
                        )[j] == all.update(i as int, (key@, v))[j] by {
                            assert(all[j] == (before[j].0@, before[j].1@));
                        }
                        assert(fields_view(fields@) =~= all.update(i as int, (key@, v)));
                    }
                } else {
                    proof {
                        lemma_fields_view(before);
                        assert(fields_view(before).take(i as int) =~= fields_view(before));
                    }
                    fields.push((key.to_owned(), value));
                    assert(fields@.drop_last() =~= before);
                }
                Json::Obj(fields)
            },
            other => other,
        }
    }

    /// The object with one more field, written last.
    pub fn with(self, key: &str, value: Json) -> (r: Json)
        ensures
            r@ == self@.with(key@, value@),
    {
        match self {
            Json::Obj(fields) => {
                let mut fields = fields;
                let ghost before = fields@;
                fields.push((key.to_owned(), value));
                assert(fields@.drop_last() =~= before);
                Json::Obj(fields)
            },
            other => other,
        }
    }

    pub fn with_str(self, key: &str, text: &str) -> (r: Json)
        ensures
            r@ == self@.with_str(key@, text@),
    {
        let value = Json::string(text);
        self.with(key, value)
    }

    pub fn copy(&self) -> (r: Json)
        ensures
            r@ == self@,
        decreases self,
    {
        match self {
            Json::Null => Json::Null,
            Json::Bool(b) => Json::Bool(*b),
            Json::Uint(n) => Json::Uint(*n),
            Json::Number(text) => Json::Number(text.clone()),
            Json::Str(text) => Json::Str(text.clone()),
            Json::Arr(items) => {
                let mut out: Vec<Json> = Vec::new();
                let mut i: usize = 0;
                assert(items@.take(0) =~= Seq::<Json>::empty());
                while i < items.len()
                    invariant
                        i <= items@.len(),
                        *self == Json::Arr(*items),
                        list_view(out@) == list_view(items@.take(i as int)),
                    decreases items@.len() - i,
                {
                    let ghost before = out@;
                    proof {
                        lemma_arr_decreases(*self, i as int);
                    }
                    let item = items[i].copy();
                    out.push(item);
                    assert(out@.drop_last() =~= before);
                    assert(items@.take(i + 1).drop_last() =~= items@.take(i as int));
                    i = i + 1;
                }
                assert(items@.take(i as int) =~= items@);
                Json::Arr(out)
            },
            Json::Obj(fields) => {
                let mut out: Vec<(String, Json)> = Vec::new();
                let mut i: usize = 0;
                assert(fields@.take(0) =~= Seq::<(String, Json)>::empty());
                while i < fields.len()
                    invariant
                        i <= fields@.len(),
                        *self == Json::Obj(*fields),
                        fields_view(out@) == fields_view(fields@.take(i as int)),
                    decreases fields@.len() - i,
                {
                    let ghost before = out@;
                    proof {
                        lemma_obj_decreases(*self, i as int);
                    }
                    let item = fields[i].1.copy();
                    out.push((fields[i].0.clone(), item));
                    assert(out@.drop_last() =~= before);
                    assert(fields@.take(i + 1).drop_last() =~= fields@.take(i as int));
                    i = i + 1;
                }
                assert(fields@.take(i as int) =~= fields@);
                Json::Obj(out)
            },
        }
    }
}

/// Adds a value to the end of a list.
pub fn push_json(list: &mut Vec<Json>, value: Json)
    ensures
        list_view(final(list)@) == list_view(old(list)@).push(value@),
{
    let ghost before = list@;
    list.push(value);
    assert(list@.drop_last() =~= before);
}

/// Adds the values of a list to the end of another.
pub fn extend_json(list: &mut Vec<Json>, more: Vec<Json>)
    ensures
        list_view(final(list)@) == list_view(old(list)@) + list_view(more@),
{
    let mut more = more;
    let ghost a = list@;
    let ghost b = more@;
    list.append(&mut more);
    proof {
        lemma_list_view(a);
        lemma_list_view(b);
        lemma_list_view(list@);
        assert(list@ =~= a + b);
        assert forall|i: int| 0 <= i < list@.len() implies list_view(list@)[i] == (list_view(a)
            + list_view(b))[i] by {
            if i < a.len() {
                assert(list@[i] == a[i]);
            } else {
                assert(list@[i] == b[i - a.len()]);
            }
        }
        assert(list_view(list@) =~= list_view(a) + list_view(b));
    }
}

/// A text that may be missing: `null` where it is.
pub open spec fn text_or_null(text: Option<Seq<char>>) -> JsonView {
    match text {
        Some(text) => JsonView::Str(text),
        None => JsonView::Null,
    }
}

pub fn string_or_null(text: &Option<String>) -> (r: Json)
    ensures
        r@ == text_or_null(crate::text::opt_view(*text)),
{
    match text {
        Some(text) => Json::string(text.as_str()),
        None => Json::Null,
    }
}

/// The outcome of reading JSON, by its view.
pub open spec fn read_view(r: Result<Json, String>) -> Result<JsonView, Seq<char>> {
    match r {
        Ok(value) => Ok(value@),
        Err(e) => Err(e@),
    }
}

/// What `serde_json` reads from a text: the value, or the text of its error.
pub uninterp spec fn parsed(text: Seq<char>) -> Result<JsonView, Seq<char>>;

/// What `serde_json` writes for a value, without white space.
pub uninterp spec fn rendered(value: JsonView) -> Seq<char>;

#[verifier::external_type_specification]
#[verifier::external_body]
pub struct ExValue(serde_json::Value);

/// The value of `serde_json` as one of the library's, field for field. Nothing
/// is stated of it beyond what `parse_json` states of the whole.
#[verifier::external_body]
fn json_of(value: serde_json::Value) -> Json {
    match value {
        serde_json::Value::Null => Json::Null,
        serde_json::Value::Bool(b) => Json::Bool(b),
        serde_json::Value::Number(n) => match n.as_u64() {
            Some(n) => Json::Uint(n),
            None => Json::Number(n.to_string()),
        },
        serde_json::Value::String(s) => Json::Str(s),
        serde_json::Value::Array(items) => Json::Arr(items.into_iter().map(json_of).collect()),
        serde_json::Value::Object(map) => {
            Json::Obj(map.into_iter().map(|(k, v)| (k, json_of(v))).collect())
        }
    }
}

/// The library's value as one of `serde_json`, field for field. Nothing is
/// stated of it beyond what `json_text` states of the whole.
#[verifier::external_body]
fn value_of(value: &Json) -> serde_json::Value {
    match value {
        Json::Null => serde_json::Value::Null,
        Json::Bool(b) => serde_json::Value::Bool(*b),
        Json::Uint(n) => serde_json::Value::from(*n),
        Json::Number(text) => serde_json::from_str(text).unwrap_or(serde_json::Value::Null),
        Json::Str(s) => serde_json::Value::String(s.clone()),
        Json::Arr(items) => serde_json::Value::Array(items.iter().map(value_of).collect()),
        Json::Obj(fields) => {
            serde_json::Value::Object(fields.iter().map(|(k, v)| (k.clone(), value_of(v))).collect())
        }
    }
}

/// `serde_json::from_str` into a `serde_json::Value`: the result depends on the
/// text alone.
#[verifier::external_body]
pub(crate) fn parse_json(text: &str) -> (r: Result<Json, String>)
    ensures
        read_view(r) == parsed(text@),
{
    match serde_json::from_str::<serde_json::Value>(text) {
        Ok(value) => Ok(json_of(value)),
        Err(error) => Err(error.to_string()),
    }
}

/// `to_string` of a `serde_json::Value`: compact JSON.
#[verifier::external_body]
pub(crate) fn json_text(value: &Json) -> (r: String)
    ensures
        r@ == rendered(value@),
{
    value_of(value).to_string()
}

impl Json {
    /// Reads a text; the error is the reader's own.
    pub fn parse(text: &str) -> (r: Result<Json, String>)
        ensures
            read_view(r) == parsed(text@),
    {
        parse_json(text)
    }

    /// Writes the value, without white space.
    pub fn to_text(&self) -> (r: String)
        ensures
            r@ == rendered(self@),
    {
        json_text(self)
    }
}

proof fn lemma_place(fields: Seq<(Seq<char>, JsonView)>, key: Seq<char>)
    ensures
        match place_of(fields, key) {
            Some(i) => 0 <= i < fields.len() && fields[i].0 == key && forall|j: int|
                0 <= j < i ==> (#[trigger] fields[j]).0 != key,
            None => forall|j: int| 0 <= j < fields.len() ==> (#[trigger] fields[j]).0 != key,
        },
    decreases fields.len(),
{
    if fields.len() > 0 {
        let init = fields.drop_last();
        lemma_place(init, key);
        assert forall|j: int| 0 <= j < init.len() implies #[trigger] fields[j] == init[j] by {}
    }
}

proof fn lemma_field_at(fields: Seq<(Seq<char>, JsonView)>, key: Seq<char>, i: int)
    requires
        0 <= i <= fields.len(),
        forall|j: int| 0 <= j < i ==> (#[trigger] fields[j]).0 != key,
        i < fields.len() ==> fields[i].0 == key,
    ensures
        field(fields, key) == (if i < fields.len() {
            Some(fields[i].1)
        } else {
            None
        }),
    decreases i,
{
    if i > 0 {
        let rest = fields.subrange(1, fields.len() as int);
        assert(fields[0].0 != key);
        assert forall|j: int| 0 <= j < i - 1 implies (#[trigger] rest[j]).0 != key by {
            assert(rest[j] == fields[j + 1]);
        }
        if i < fields.len() {
            assert(rest[i - 1] == fields[i]);
        }
        lemma_field_at(rest, key, i - 1);
    }
}

/// A field that is set is found with its value, and every other field as before.
pub proof fn law_set_field_is_found(v: JsonView, key: Seq<char>, value: JsonView, other: Seq<char>)
    requires
        v is Obj,
    ensures
        v.set(key, value) is Obj,
        v.set(key, value).get(other) == (if other == key {
            Some(value)
        } else {
            v.get(other)
        }),
{
    let fields = v->Obj_0;
    lemma_place(fields, key);
    lemma_place(fields, other);
    match place_of(fields, key) {
        None => {
            lemma_field_pushed(fields, key, value, other);
            if other == key {
                lemma_field_at(fields, key, fields.len() as int);
            }
        },
        Some(i) => {
            let out = fields.update(i, (key, value));
            if other == key {
                assert forall|j: int| 0 <= j < i implies (#[trigger] out[j]).0 != key by {
                    assert(out[j] == fields[j]);
                }
                lemma_field_at(out, key, i);
            } else {
                let at = match place_of(fields, other) {
                    Some(at) => at,
                    None => fields.len() as int,
                };
                lemma_field_at(fields, other, at);
                assert forall|j: int| 0 <= j < at implies (#[trigger] out[j]).0 != other by {
                    if j != i {
                        assert(out[j] == fields[j]);
                    }
                }
                lemma_field_at(out, other, at);
            }
        },
    }
}

} // verus!
