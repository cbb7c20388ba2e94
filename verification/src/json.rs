//! JSON values, as the logic reads and builds them.
use crate::text::{
    decimal, free_of, lemma_decimal_value, lemma_take_step, lemma_views_push, opt_text, str_eq,
    views,
};
use vstd::prelude::*;
use vstd::string::*;

verus! {

/// `serde_json::Number`.
#[verifier::external_type_specification]
#[verifier::external_body]
pub struct ExJsonNumber(serde_json::Number);

/// `serde_json::Value`.
#[verifier::external_type_specification]
#[verifier::external_body]
pub struct ExJsonValue(serde_json::Value);

/// A JSON value.
#[derive(Debug, PartialEq, Eq)]
pub enum Json {
    Null,
    Bool(bool),
    Number(serde_json::Number),
    Text(String),
    List(Vec<Json>),
    /// Of two fields with one name the later counts.
    Record(Vec<(String, Json)>),
}

/// What a JSON value says.
pub enum JsonView {
    Null,
    Bool(bool),
    /// The number as it is written out.
    Number(Seq<char>),
    Text(Seq<char>),
    List(Seq<JsonView>),
    Record(Map<Seq<char>, JsonView>),
}

/// The text that a JSON number is written as.
pub uninterp spec fn number_text(n: serde_json::Number) -> Seq<char>;

/// What an outside JSON value holds.
pub uninterp spec fn json_contents(v: serde_json::Value) -> JsonView;

/// The compact text of a JSON value.
pub uninterp spec fn json_text(v: JsonView) -> Seq<char>;

pub open spec fn list_view(items: Seq<Json>) -> Seq<JsonView>
    decreases items,
{
    if items.len() == 0 {
        Seq::empty()
    } else {
        list_view(items.drop_last()).push(items.last().view())
    }
}

pub open spec fn fields_view(fields: Seq<(String, Json)>) -> Map<Seq<char>, JsonView>
    decreases fields,
{
    if fields.len() == 0 {
        Map::empty()
    } else {
        fields_view(fields.drop_last()).insert(fields.last().0@, fields.last().1.view())
    }
}

impl View for Json {
    type V = JsonView;

    open spec fn view(&self) -> JsonView
        decreases self,
    {
        match self {
            Json::Null => JsonView::Null,
            Json::Bool(b) => JsonView::Bool(*b),
            Json::Number(n) => JsonView::Number(number_text(*n)),
            Json::Text(s) => JsonView::Text(s@),
            Json::List(items) => JsonView::List(list_view(items@)),
            Json::Record(fields) => JsonView::Record(fields_view(fields@)),
        }
    }
}


/// `Display` of `serde_json::Number`: the number as it is written out.
#[verifier::external_body]
pub(crate) fn number_string(n: &serde_json::Number) -> (r: String)
    ensures
        r@ == number_text(*n),
{
    n.to_string()
}

/// `Number::as_u64` of serde_json: a number without sign, fraction or exponent
/// that fits, and no other.
#[verifier::external_body]
pub(crate) fn number_u64(n: &serde_json::Number) -> (r: Option<u64>)
    ensures
        r is Some ==> number_text(*n) == decimal(r->0 as nat),
        r is None ==> forall|k: u64| number_text(*n) != #[trigger] decimal(k as nat),
{
    n.as_u64()
}

/// A whole number in decimal, with a sign where it is negative.
pub open spec fn signed_decimal(n: int) -> Seq<char> {
    if n < 0 {
        seq!['-'] + decimal((-n) as nat)
    } else {
        decimal(n as nat)
    }
}

/// `Number::as_i64` of serde_json: a number without fraction or exponent that
/// fits, and no other.
#[verifier::external_body]
pub(crate) fn number_i64(n: &serde_json::Number) -> (r: Option<i64>)
    ensures
        r is Some ==> number_text(*n) == signed_decimal(r->0 as int),
        r is None ==> forall|k: i64| number_text(*n) != #[trigger] signed_decimal(k as int),
{
    n.as_i64()
}

/// `Number::from` of serde_json on an integer, which is written in decimal.
#[verifier::external_body]
pub(crate) fn number_from(n: u64) -> (r: serde_json::Number)
    ensures
        number_text(r) == decimal(n as nat),
{
    serde_json::Number::from(n)
}

/// `clone` of `serde_json::Number`: a number that is written the same.
pub assume_specification[ <serde_json::Number as Clone>::clone ](
    n: &serde_json::Number,
) -> (r: serde_json::Number)
    ensures
        number_text(r) == number_text(*n),
;

/// `Value::Null` of serde_json.
#[verifier::external_body]
fn value_null() -> (r: serde_json::Value)
    ensures
        json_contents(r) == JsonView::Null,
{
    serde_json::Value::Null
}

/// `Value::Bool` of serde_json.
#[verifier::external_body]
fn value_bool(b: bool) -> (r: serde_json::Value)
    ensures
        json_contents(r) == JsonView::Bool(b),
{
    serde_json::Value::Bool(b)
}

/// `Value::Number` of serde_json.
#[verifier::external_body]
fn value_number(n: &serde_json::Number) -> (r: serde_json::Value)
    ensures
        json_contents(r) == JsonView::Number(number_text(*n)),
{
    serde_json::Value::Number(n.clone())
}

/// `Value::String` of serde_json.
#[verifier::external_body]
fn value_text(s: &str) -> (r: serde_json::Value)
    ensures
        json_contents(r) == JsonView::Text(s@),
{
    serde_json::Value::String(s.to_owned())
}

/// `Value::Array` of serde_json on an array without items.
#[verifier::external_body]
fn value_list() -> (r: serde_json::Value)
    ensures
        json_contents(r) == JsonView::List(Seq::empty()),
{
    serde_json::Value::Array(Vec::new())
}

/// `Value::as_array_mut` and `Vec::push`: an array gets one item more.
#[verifier::external_body]
fn value_push(list: &mut serde_json::Value, item: serde_json::Value)
    requires
        json_contents(*old(list)) is List,
    ensures
        json_contents(*final(list)) == JsonView::List(
            json_contents(*old(list))->List_0.push(json_contents(item)),
        ),
{
    if let Some(items) = list.as_array_mut() {
        items.push(item);
    }
}

/// `Value::Object` of serde_json on an object without fields.
#[verifier::external_body]
fn value_record() -> (r: serde_json::Value)
    ensures
        json_contents(r) == JsonView::Record(Map::empty()),
{
    serde_json::Value::Object(serde_json::Map::new())
}

/// `Value::as_object_mut` and `Map::insert` of serde_json: an object gets a
/// field, in place of one of that name.
#[verifier::external_body]
fn value_put(record: &mut serde_json::Value, key: &str, value: serde_json::Value)
    requires
        json_contents(*old(record)) is Record,
    ensures
        json_contents(*final(record)) == JsonView::Record(
            json_contents(*old(record))->Record_0.insert(key@, json_contents(value)),
        ),
{
    if let Some(fields) = record.as_object_mut() {
        fields.insert(key.to_owned(), value);
    }
}

/// `Display` of `serde_json::Value`: its compact text, which depends on
/// nothing but what the value holds. It is one line, as line feeds in strings
/// are escaped.
#[verifier::external_body]
fn value_string(v: &serde_json::Value) -> (r: String)
    ensures
        r@ == json_text(json_contents(*v)),
        free_of(r@, '\n'),
{
    v.to_string()
}

impl Json {
    fn to_value(&self) -> (r: serde_json::Value)
        ensures
            json_contents(r) == self@,
        decreases self,
    {
        match self {
            Json::Null => value_null(),
            Json::Bool(b) => value_bool(*b),
            Json::Number(n) => value_number(n),
            Json::Text(s) => value_text(s.as_str()),
            Json::List(items) => {
                let mut list = value_list();
                let mut i: usize = 0;
                assert(items@.take(0) =~= Seq::<Json>::empty());
                while i < items.len()
                    invariant
                        i <= items@.len(),
                        decreases_to!(self => items@),
                        json_contents(list) == JsonView::List(list_view(items@.take(i as int))),
                    decreases items@.len() - i,
                {
                    assert(items@.take(i + 1).drop_last() =~= items@.take(i as int));
                    value_push(&mut list, items[i].to_value());
                    i += 1;
                }
                assert(items@.take(i as int) =~= items@);
                list
            },
            Json::Record(fields) => {
                let mut record = value_record();
                let mut i: usize = 0;
                assert(fields@.take(0) =~= Seq::<(String, Json)>::empty());
                while i < fields.len()
                    invariant
                        i <= fields@.len(),
                        decreases_to!(self => fields@),
                        json_contents(record) == JsonView::Record(
                            fields_view(fields@.take(i as int)),
                        ),
                    decreases fields@.len() - i,
                {
                    assert(fields@.take(i + 1).drop_last() =~= fields@.take(i as int));
                    value_put(&mut record, fields[i].0.as_str(), fields[i].1.to_value());
                    i += 1;
                }
                assert(fields@.take(i as int) =~= fields@);
                record
            },
        }
    }

    /// The compact text of the value, which is one line.
    pub fn to_text(&self) -> (r: String)
        ensures
            r@ == json_text(self@),
            free_of(r@, '\n'),
    {
        let value = self.to_value();
        value_string(&value)
    }
}


/// The value of a field, where there is one.
pub open spec fn field_in(fields: Map<Seq<char>, JsonView>, key: Seq<char>) -> Option<JsonView> {
    if fields.dom().contains(key) {
        Some(fields[key])
    } else {
        None
    }
}

impl JsonView {
    pub open spec fn field(self, key: Seq<char>) -> Option<JsonView> {
        match self {
            JsonView::Record(fields) => field_in(fields, key),
            _ => None,
        }
    }

    pub open spec fn text(self) -> Option<Seq<char>> {
        match self {
            JsonView::Text(s) => Some(s),
            _ => None,
        }
    }

    pub open spec fn items(self) -> Option<Seq<JsonView>> {
        match self {
            JsonView::List(items) => Some(items),
            _ => None,
        }
    }

    /// The text in a field, where the field is there and holds a text.
    pub open spec fn text_field(self, key: Seq<char>) -> Option<Seq<char>> {
        match self.field(key) {
            Some(value) => value.text(),
            None => None,
        }
    }

    /// The items in a field, where the field is there and holds a list.
    pub open spec fn list_field(self, key: Seq<char>) -> Option<Seq<JsonView>> {
        match self.field(key) {
            Some(value) => value.items(),
            None => None,
        }
    }
}

pub proof fn lemma_list_view(items: Seq<Json>)
    ensures
        list_view(items).len() == items.len(),
        forall|i: int| 0 <= i < items.len() ==> list_view(items)[i] == (#[trigger] items[i])@,
    decreases items.len(),
{
    if items.len() > 0 {
        lemma_list_view(items.drop_last());
        assert(list_view(items) == list_view(items.drop_last()).push(items.last()@));
        assert forall|i: int| 0 <= i < items.len() implies list_view(items)[i] == (
        #[trigger] items[i])@ by {
            if i < items.len() - 1 {
                assert(items.drop_last()[i] == items[i]);
            }
        }
    }
}

pub fn field_of<'a>(fields: &'a Vec<(String, Json)>, key: &str) -> (r: Option<&'a Json>)
    ensures
        match r {
            Some(value) => field_in(fields_view(fields@), key@) == Some(value@),
            None => field_in(fields_view(fields@), key@) is None,
        },
{
    let mut i: usize = fields.len();
    assert(fields@.take(i as int) =~= fields@);
    while i > 0
        invariant
            i <= fields@.len(),
            field_in(fields_view(fields@), key@) == field_in(
                fields_view(fields@.take(i as int)),
                key@,
            ),
        decreases i,
    {
        let ghost upto = fields@.take(i as int);
        assert(upto.drop_last() =~= fields@.take(i - 1));
        assert(fields_view(upto) == fields_view(upto.drop_last()).insert(
            upto.last().0@,
            upto.last().1@,
        ));
        if str_eq(fields[i - 1].0.as_str(), key) {
            return Some(&fields[i - 1].1);
        }
        i -= 1;
    }
    None
}

/// Adds a field, in place of one of that name.
pub fn put(fields: &mut Vec<(String, Json)>, key: &str, value: Json)
    ensures
        fields_view(final(fields)@) == fields_view(old(fields)@).insert(key@, value@),
{
    let ghost before = fields@;
    fields.push((key.to_owned(), value));
    assert(fields@.drop_last() =~= before);
}

/// Adds an item to a list.
pub fn push_item(items: &mut Vec<Json>, item: Json)
    ensures
        list_view(final(items)@) == list_view(old(items)@).push(item@),
{
    let ghost before = items@;
    items.push(item);
    assert(items@.drop_last() =~= before);
}

pub open spec fn text_views(texts: Seq<Seq<char>>) -> Seq<JsonView> {
    texts.map_values(|s: Seq<char>| JsonView::Text(s))
}

pub open spec fn number_view(n: nat) -> JsonView {
    JsonView::Number(decimal(n))
}

pub open spec fn optional_text_view(o: Option<Seq<char>>) -> JsonView {
    match o {
        Some(s) => JsonView::Text(s),
        None => JsonView::Null,
    }
}

pub fn json_of_text(s: &str) -> (r: Json)
    ensures
        r@ == JsonView::Text(s@),
{
    Json::Text(s.to_owned())
}

pub fn json_of_option(o: &Option<String>) -> (r: Json)
    ensures
        r@ == optional_text_view(opt_text(*o)),
{
    match o {
        Some(s) => json_of_text(s.as_str()),
        None => Json::Null,
    }
}

pub fn json_of_number(n: u64) -> (r: Json)
    ensures
        r@ == number_view(n as nat),
{
    Json::Number(number_from(n))
}

pub fn json_of_texts(texts: &Vec<String>) -> (r: Json)
    ensures
        r@ == JsonView::List(text_views(views(texts@))),
{
    let mut items: Vec<Json> = Vec::new();
    let mut i: usize = 0;
    let ghost all = text_views(views(texts@));
    assert(list_view(items@) =~= all.take(0));
    while i < texts.len()
        invariant
            i <= texts@.len(),
            all == text_views(views(texts@)),
            list_view(items@) == all.take(i as int),
        decreases texts@.len() - i,
    {
        push_item(&mut items, json_of_text(texts[i].as_str()));
        assert(all.take(i + 1) =~= all.take(i as int).push(JsonView::Text(texts@[i as int]@)));
        i += 1;
    }
    assert(all.take(i as int) =~= all);
    Json::List(items)
}

pub fn empty_record() -> (r: Vec<(String, Json)>)
    ensures
        fields_view(r@) == Map::<Seq<char>, JsonView>::empty(),
{
    Vec::new()
}

pub fn empty_list() -> (r: Vec<Json>)
    ensures
        list_view(r@) == Seq::<JsonView>::empty(),
{
    Vec::new()
}

impl Json {
    pub fn get(&self, key: &str) -> (r: Option<&Json>)
        ensures
            match r {
                Some(value) => self@.field(key@) == Some(value@),
                None => self@.field(key@) is None,
            },
    {
        match self {
            Json::Record(fields) => field_of(fields, key),
            _ => None,
        }
    }

    pub fn as_text(&self) -> (r: Option<&str>)
        ensures
            match r {
                Some(s) => self@.text() == Some(s@),
                None => self@.text() is None,
            },
    {
        match self {
            Json::Text(s) => Some(s.as_str()),
            _ => None,
        }
    }

    pub fn as_list(&self) -> (r: Option<&Vec<Json>>)
        ensures
            match r {
                Some(items) => self@.items() == Some(list_view(items@)),
                None => self@.items() is None,
            },
    {
        match self {
            Json::List(items) => Some(items),
            _ => None,
        }
    }

    pub fn get_text(&self, key: &str) -> (r: Option<&str>)
        ensures
            match r {
                Some(s) => self@.text_field(key@) == Some(s@),
                None => self@.text_field(key@) is None,
            },
    {
        match self.get(key) {
            Some(value) => value.as_text(),
            None => None,
        }
    }

    pub fn get_list(&self, key: &str) -> (r: Option<&Vec<Json>>)
        ensures
            match r {
                Some(items) => self@.list_field(key@) == Some(list_view(items@)),
                None => self@.list_field(key@) is None,
            },
    {
        match self.get(key) {
            Some(value) => value.as_list(),
            None => None,
        }
    }

    /// A value that says the same.
    pub fn copy(&self) -> (r: Json)
        ensures
            r@ == self@,
        decreases self,
    {
        match self {
            Json::Null => Json::Null,
            Json::Bool(b) => Json::Bool(*b),
            Json::Number(n) => Json::Number(n.clone()),
            Json::Text(s) => json_of_text(s.as_str()),
            Json::List(items) => {
                let mut list = empty_list();
                let mut i: usize = 0;
                assert(items@.take(0) =~= Seq::<Json>::empty());
                while i < items.len()
                    invariant
                        i <= items@.len(),
                        decreases_to!(self => items@),
                        list_view(list@) == list_view(items@.take(i as int)),
                    decreases items@.len() - i,
                {
                    assert(items@.take(i + 1).drop_last() =~= items@.take(i as int));
                    push_item(&mut list, items[i].copy());
                    i += 1;
                }
                assert(items@.take(i as int) =~= items@);
                Json::List(list)
            },
            Json::Record(fields) => {
                let mut record = empty_record();
                let mut i: usize = 0;
                assert(fields@.take(0) =~= Seq::<(String, Json)>::empty());
                while i < fields.len()
                    invariant
                        i <= fields@.len(),
                        decreases_to!(self => fields@),
                        fields_view(record@) == fields_view(fields@.take(i as int)),
                    decreases fields@.len() - i,
                {
                    assert(fields@.take(i + 1).drop_last() =~= fields@.take(i as int));
                    put(&mut record, fields[i].0.as_str(), fields[i].1.copy());
                    i += 1;
                }
                assert(fields@.take(i as int) =~= fields@);
                Json::Record(record)
            },
        }
    }
}


/// The texts among some items.
pub open spec fn texts_in(items: Seq<JsonView>) -> Seq<Seq<char>>
    decreases items.len(),
{
    if items.len() == 0 {
        Seq::empty()
    } else {
        let before = texts_in(items.drop_last());
        match items.last().text() {
            Some(s) => before.push(s),
            None => before,
        }
    }
}

/// The texts among the items of a field that holds a list.
pub open spec fn texts_of_field(value: JsonView, key: Seq<char>) -> Seq<Seq<char>> {
    match value.list_field(key) {
        Some(items) => texts_in(items),
        None => Seq::empty(),
    }
}

pub fn item_strings(items: &Vec<Json>) -> (r: Vec<String>)
    ensures
        views(r@) == texts_in(list_view(items@)),
{
    broadcast use lemma_views_push;
    let ghost all = list_view(items@);
    let mut r: Vec<String> = Vec::new();
    let mut i: usize = 0;
    proof {
        lemma_list_view(items@);
        assert(all.take(0) =~= Seq::<JsonView>::empty());
        assert(views(r@) =~= Seq::<Seq<char>>::empty());
    }
    while i < items.len()
        invariant
            i <= items@.len(),
            all == list_view(items@),
            all.len() == items@.len(),
            forall|k: int| 0 <= k < items@.len() ==> all[k] == (#[trigger] items@[k])@,
            views(r@) == texts_in(all.take(i as int)),
        decreases items@.len() - i,
    {
        proof {
            lemma_take_step(all, i as int);
        }
        if let Some(s) = items[i].as_text() {
            r.push(s.to_owned());
        }
        i += 1;
    }
    assert(all.take(i as int) =~= all);
    r
}

/// The texts in a field that holds a list.
pub fn string_array_field(value: &Json, name: &str) -> (r: Vec<String>)
    ensures
        views(r@) == texts_of_field(value@, name@),
{
    match value.get_list(name) {
        Some(items) => item_strings(items),
        None => {
            let r: Vec<String> = Vec::new();
            assert(views(r@) =~= Seq::<Seq<char>>::empty());
            r
        },
    }
}

/// The text in a field.
pub fn string_field(value: &Json, name: &str) -> (r: Option<String>)
    ensures
        opt_text(r) == value@.text_field(name@),
{
    match value.get_text(name) {
        Some(s) => Some(s.to_owned()),
        None => None,
    }
}

/// The text of a JSON value over several lines, with each level indented.
pub uninterp spec fn json_pretty(v: JsonView) -> Seq<char>;

/// The alternate `Display` of `serde_json::Value`: its text over several lines,
/// which depends on nothing but what the value holds.
#[verifier::external_body]
fn value_pretty(v: &serde_json::Value) -> (r: String)
    ensures
        r@ == json_pretty(json_contents(*v)),
{
    format!("{:#}", v)
}

impl Json {
    /// The text of the value over several lines.
    pub fn to_pretty_text(&self) -> (r: String)
        ensures
            r@ == json_pretty(self@),
    {
        let value = self.to_value();
        value_pretty(&value)
    }
}


/// The value that a JSON text stands for, where it stands for one.
pub uninterp spec fn json_parsed(s: Seq<char>) -> Option<JsonView>;

/// Why a JSON text stands for no value.
pub uninterp spec fn json_error(s: Seq<char>) -> Seq<char>;

/// `serde_json::from_str` into a `Value`.
#[verifier::external_body]
fn value_parse(s: &str) -> (r: Result<serde_json::Value, String>)
    ensures
        match r {
            Ok(v) => json_parsed(s@) == Some(json_contents(v)),
            Err(e) => json_parsed(s@) is None && e@ == json_error(s@),
        },
{
    serde_json::from_str::<serde_json::Value>(s).map_err(|error| error.to_string())
}

/// The outermost level of an outside JSON value.
enum Level<'a> {
    Null,
    Bool(bool),
    Number(serde_json::Number),
    Text(String),
    List(Vec<&'a serde_json::Value>),
    Record(Vec<(String, &'a serde_json::Value)>),
}

spec fn level_items(items: Seq<&serde_json::Value>) -> Seq<JsonView> {
    items.map_values(|v: &serde_json::Value| json_contents(*v))
}

spec fn level_fields(fields: Seq<(String, &serde_json::Value)>) -> Map<Seq<char>, JsonView>
    decreases fields.len(),
{
    if fields.len() == 0 {
        Map::empty()
    } else {
        level_fields(fields.drop_last()).insert(
            fields.last().0@,
            json_contents(*fields.last().1),
        )
    }
}

spec fn level_view(level: Level) -> JsonView {
    match level {
        Level::Null => JsonView::Null,
        Level::Bool(b) => JsonView::Bool(b),
        Level::Number(n) => JsonView::Number(number_text(n)),
        Level::Text(s) => JsonView::Text(s@),
        Level::List(items) => JsonView::List(level_items(items@)),
        Level::Record(fields) => JsonView::Record(level_fields(fields@)),
    }
}

/// The variant of a `serde_json::Value`, with its items or fields. The fields
/// of an object have different names.
#[verifier::external_body]
fn value_level<'a>(v: &'a serde_json::Value) -> (r: Level<'a>)
    ensures
        level_view(r) == json_contents(*v),
        r is Record ==> forall|i: int, j: int|
            0 <= i < j < r->Record_0@.len() ==> (#[trigger] r->Record_0@[i]).0@ != (
            #[trigger] r->Record_0@[j]).0@,
{
    match v {
        serde_json::Value::Null => Level::Null,
        serde_json::Value::Bool(b) => Level::Bool(*b),
        serde_json::Value::Number(n) => Level::Number(n.clone()),
        serde_json::Value::String(s) => Level::Text(s.clone()),
        serde_json::Value::Array(items) => Level::List(items.iter().collect()),
        serde_json::Value::Object(fields) => {
            Level::Record(fields.iter().map(|(k, v)| (k.clone(), v)).collect())
        },
    }
}

proof fn lemma_level_fields(fields: Seq<(String, &serde_json::Value)>, i: int)
    requires
        0 <= i < fields.len(),
        forall|a: int, b: int|
            0 <= a < b < fields.len() ==> (#[trigger] fields[a]).0@ != (#[trigger] fields[b]).0@,
    ensures
        level_fields(fields).dom().contains(fields[i].0@),
        level_fields(fields)[fields[i].0@] == json_contents(*fields[i].1),
    decreases fields.len(),
{
    if i < fields.len() - 1 {
        let init = fields.drop_last();
        assert forall|a: int, b: int| 0 <= a < b < init.len() implies (#[trigger] init[a]).0@ != (
        #[trigger] init[b]).0@ by {
            assert(fields[a].0@ != fields[b].0@);
        }
        lemma_level_fields(init, i);
        assert(init[i] == fields[i]);
        assert(fields[i].0@ != fields[fields.len() - 1].0@);
    }
}

proof fn lemma_level_finite(fields: Seq<(String, &serde_json::Value)>)
    ensures
        level_fields(fields).dom().finite(),
    decreases fields.len(),
{
    if fields.len() > 0 {
        lemma_level_finite(fields.drop_last());
    }
}

fn from_value(v: &serde_json::Value) -> (r: Json)
    ensures
        r@ == json_contents(*v),
    decreases json_contents(*v),
{
    match value_level(v) {
        Level::Null => Json::Null,
        Level::Bool(b) => Json::Bool(b),
        Level::Number(n) => Json::Number(n),
        Level::Text(s) => Json::Text(s),
        Level::List(items) => {
            let ghost all = level_items(items@);
            let mut list = empty_list();
            let mut i: usize = 0;
            assert(list_view(list@) =~= all.take(0));
            while i < items.len()
                invariant
                    i <= items@.len(),
                    all == level_items(items@),
                    json_contents(*v) == JsonView::List(all),
                    list_view(list@) == all.take(i as int),
                decreases items@.len() - i,
            {
                proof {
                    lemma_take_step(all, i as int);
                    assert(all[i as int] == json_contents(*items@[i as int]));
                    assert(decreases_to!(json_contents(*v) => json_contents(*v)->List_0));
                    assert(decreases_to!(all => all[i as int]));
                }
                push_item(&mut list, from_value(items[i]));
                i += 1;
            }
            assert(all.take(i as int) =~= all);
            Json::List(list)
        },
        Level::Record(fields) => {
            let mut record = empty_record();
            let mut i: usize = 0;
            assert(fields@.take(0) =~= Seq::<(String, &serde_json::Value)>::empty());
            while i < fields.len()
                invariant
                    i <= fields@.len(),
                    json_contents(*v) == JsonView::Record(level_fields(fields@)),
                    forall|a: int, b: int|
                        0 <= a < b < fields@.len() ==> (#[trigger] fields@[a]).0@ != (
                        #[trigger] fields@[b]).0@,
                    fields_view(record@) == level_fields(fields@.take(i as int)),
                decreases fields@.len() - i,
            {
                proof {
                    lemma_take_step(fields@, i as int);
                    lemma_level_fields(fields@, i as int);
                    let all = level_fields(fields@);
                    lemma_level_finite(fields@);
                    assert(decreases_to!(json_contents(*v) => json_contents(*v)->Record_0));
                    assert(decreases_to!(all => all[fields@[i as int].0@]));
                }
                put(&mut record, fields[i].0.as_str(), from_value(fields[i].1));
                i += 1;
            }
            assert(fields@.take(i as int) =~= fields@);
            Json::Record(record)
        },
    }
}

/// Reads a JSON text.
pub fn parse_json(s: &str) -> (r: Result<Json, String>)
    ensures
        match r {
            Ok(value) => json_parsed(s@) == Some(value@),
            Err(e) => json_parsed(s@) is None && e@ == json_error(s@),
        },
{
    match value_parse(s) {
        Ok(value) => Ok(from_value(&value)),
        Err(error) => Err(error),
    }
}


impl JsonView {
    /// Whether the value is a whole number of 64 bits.
    pub open spec fn is_whole(self) -> bool {
        exists|n: u64| self == #[trigger] number_view(n as nat)
    }

    /// The whole number that the value is, or zero.
    pub open spec fn whole(self) -> nat {
        if self.is_whole() {
            (choose|n: u64| self == #[trigger] number_view(n as nat)) as nat
        } else {
            0
        }
    }

    /// The number with a sign that the value is, where it is one of 64 bits.
    pub open spec fn signed(self) -> Option<int> {
        if exists|n: i64| self == JsonView::Number(#[trigger] signed_decimal(n as int)) {
            Some(
                (choose|n: i64| self == JsonView::Number(#[trigger] signed_decimal(n as int)))
                    as int,
            )
        } else {
            None
        }
    }

    /// The whole number in a field, or zero.
    pub open spec fn count_field(self, key: Seq<char>) -> nat {
        match self.field(key) {
            Some(value) => value.whole(),
            None => 0,
        }
    }

    /// The number of items in a field that holds a list, or zero.
    pub open spec fn length_field(self, key: Seq<char>) -> nat {
        match self.list_field(key) {
            Some(items) => items.len(),
            None => 0,
        }
    }
}

proof fn lemma_decimal_start(n: nat)
    ensures
        decimal(n).len() > 0,
        decimal(n)[0] != '-',
    decreases n,
{
    if n >= 10 {
        lemma_decimal_start(n / 10);
    }
}

/// A number with a sign is known from its text.
pub proof fn lemma_signed_decimal(a: int, b: int)
    requires
        signed_decimal(a) == signed_decimal(b),
    ensures
        a == b,
{
    let x = if a < 0 {
        (-a) as nat
    } else {
        a as nat
    };
    let y = if b < 0 {
        (-b) as nat
    } else {
        b as nat
    };
    lemma_decimal_start(x);
    lemma_decimal_start(y);
    lemma_decimal_value(x);
    lemma_decimal_value(y);
    if a < 0 && b < 0 {
        assert((seq!['-'] + decimal(x)).skip(1) =~= decimal(x));
        assert((seq!['-'] + decimal(y)).skip(1) =~= decimal(y));
    } else if a < 0 {
        assert((seq!['-'] + decimal(x))[0] == '-');
    } else if b < 0 {
        assert((seq!['-'] + decimal(y))[0] == '-');
    }
}

impl Json {
    pub fn as_i64(&self) -> (r: Option<i64>)
        ensures
            match r {
                Some(n) => self@.signed() == Some(n as int),
                None => self@.signed() is None,
            },
    {
        match self {
            Json::Number(n) => {
                let r = number_i64(n);
                proof {
                    if r is Some {
                        let v = r->0;
                        assert(self@ == JsonView::Number(signed_decimal(v as int)));
                        let k = choose|k: i64|
                            self@ == JsonView::Number(#[trigger] signed_decimal(k as int));
                        lemma_signed_decimal(k as int, v as int);
                    }
                }
                r
            },
            _ => None,
        }
    }

    pub fn as_u64(&self) -> (r: Option<u64>)
        ensures
            r is Some == self@.is_whole(),
            r is Some ==> self@ == number_view(r->0 as nat) && self@.whole() == r->0,
    {
        match self {
            Json::Number(n) => {
                let r = number_u64(n);
                proof {
                    if r is Some {
                        assert(self@ == number_view(r->0 as nat));
                        let k = choose|k: u64| self@ == #[trigger] number_view(k as nat);
                        lemma_decimal_value(k as nat);
                        lemma_decimal_value(r->0 as nat);
                    }
                }
                r
            },
            _ => None,
        }
    }

    pub fn get_count(&self, key: &str) -> (r: u64)
        ensures
            r == self@.count_field(key@),
    {
        match self.get(key) {
            Some(value) => match value.as_u64() {
                Some(n) => n,
                None => 0,
            },
            None => 0,
        }
    }

    pub fn get_length(&self, key: &str) -> (r: usize)
        ensures
            r == self@.length_field(key@),
    {
        match self.get_list(key) {
            Some(items) => {
                proof {
                    lemma_list_view(items@);
                }
                items.len()
            },
            None => 0,
        }
    }
}

/// A text as JSON writes it, between quotes.
pub open spec fn quoted(s: Seq<char>) -> Seq<char> {
    json_text(JsonView::Text(s))
}

pub fn quoted_text(value: &str) -> (r: String)
    ensures
        r@ == quoted(value@),
        free_of(r@, '\n'),
{
    json_of_text(value).to_text()
}

} // verus!
