//! JSON values.
//!
//! `Json` is the value that the protocol and the recipes work on; its view
//! `JsonView` is the mathematical one, in which an object is a map. The text
//! form is the business of `serde_json`, which is called here and nowhere else.
use vstd::prelude::*;

use crate::text::{digit, join, opt_str, opt_text, same, texts};

verus! {

// ---------------------------------------------------------------------------
// What is taken from `serde_json`
// ---------------------------------------------------------------------------

/// `serde_json::Value`, the tree that `serde_json` reads and prints.
#[verifier::external_type_specification]
#[verifier::external_body]
pub struct ExValue(serde_json::Value);

/// `serde_json::Number`, an integer or a float. Its floats are carried along
/// and never looked into.
#[verifier::external_type_specification]
#[verifier::external_body]
pub struct ExNumber(serde_json::Number);

/// The integer that a number holds; `None` for a float.
pub uninterp spec fn number_int(n: serde_json::Number) -> Option<int>;

/// The tree that a `serde_json::Value` holds.
pub uninterp spec fn value_content(v: serde_json::Value) -> JsonView;

/// What `serde_json` reads in a text: the value, or the message of its error.
pub uninterp spec fn parsed_text(text: Seq<char>) -> Result<JsonView, Seq<char>>;

/// The compact text that `serde_json` prints for a value.
pub uninterp spec fn compact_text(content: JsonView) -> Seq<char>;

/// The indented text that `serde_json` prints for a value, if it prints.
pub uninterp spec fn pretty_text(content: JsonView) -> Option<Seq<char>>;

/// `serde_json::Number::from` on a `u64` keeps the integer.
#[verifier::external_body]
fn number_from_u64(n: u64) -> (r: serde_json::Number)
    ensures
        number_int(r) == Some(n as int),
{
    serde_json::Number::from(n)
}

/// `serde_json::Number::from` on an `i64` keeps the integer.
#[verifier::external_body]
fn number_from_i64(n: i64) -> (r: serde_json::Number)
    ensures
        number_int(r) == Some(n as int),
{
    serde_json::Number::from(n)
}

/// `serde_json::Number::as_i64` gives the integer that a number holds, where it
/// holds one in the range of an `i64`.
#[verifier::external_body]
fn number_as_i64(n: &serde_json::Number) -> (r: Option<i64>)
    ensures
        match r {
            Some(i) => number_int(*n) == Some(i as int),
            None => number_int(*n) matches Some(i) ==> !(i64::MIN <= i <= i64::MAX),
        },
{
    n.as_i64()
}

/// `Clone` of `serde_json::Number`, which derives it: the same number again.
#[verifier::external_body]
fn copy_number(n: &serde_json::Number) -> (r: serde_json::Number)
    ensures
        r == *n,
{
    n.clone()
}

/// The variants of `serde_json::Value`, with the entries of an object as a list.
enum ValueParts {
    Null,
    Bool(bool),
    Number(serde_json::Number),
    Text(String),
    Array(Vec<serde_json::Value>),
    Object(Vec<(String, serde_json::Value)>),
}

spec fn value_entries(entries: Seq<(String, serde_json::Value)>) -> Map<Seq<char>, JsonView>
    decreases entries.len(),
{
    if entries.len() == 0 {
        Map::empty()
    } else {
        value_entries(entries.drop_last()).insert(
            entries.last().0@,
            value_content(entries.last().1),
        )
    }
}

spec fn distinct_keys(entries: Seq<(String, serde_json::Value)>) -> bool {
    forall|i: int, j: int|
        0 <= i < j < entries.len() ==> #[trigger] entries[i].0@ != #[trigger] entries[j].0@
}

spec fn parts_content(p: ValueParts) -> JsonView {
    match p {
        ValueParts::Null => JsonView::Null,
        ValueParts::Bool(b) => JsonView::Bool(b),
        ValueParts::Number(n) => number_view(n),
        ValueParts::Text(s) => JsonView::Text(s@),
        ValueParts::Array(items) => JsonView::Array(
            items@.map_values(|v: serde_json::Value| value_content(v)),
        ),
        ValueParts::Object(entries) => JsonView::Object(value_entries(entries@)),
    }
}

/// A `serde_json::Value` taken apart into its variant. The keys of an object
/// are distinct, as those of the map behind it are.
#[verifier::external_body]
fn open_value(v: serde_json::Value) -> (r: ValueParts)
    ensures
        value_content(v) == parts_content(r),
        r matches ValueParts::Object(entries) ==> distinct_keys(entries@),
{
    match v {
        serde_json::Value::Null => ValueParts::Null,
        serde_json::Value::Bool(b) => ValueParts::Bool(b),
        serde_json::Value::Number(n) => ValueParts::Number(n),
        serde_json::Value::String(s) => ValueParts::Text(s),
        serde_json::Value::Array(items) => ValueParts::Array(items),
        serde_json::Value::Object(map) => ValueParts::Object(map.into_iter().collect()),
    }
}

/// A `serde_json::Value` put together from its variant. The keys of an object
/// have to be distinct: a map holds each of them once.
#[verifier::external_body]
fn close_value(p: ValueParts) -> (r: serde_json::Value)
    requires
        p matches ValueParts::Object(entries) ==> distinct_keys(entries@),
    ensures
        value_content(r) == parts_content(p),
{
    match p {
        ValueParts::Null => serde_json::Value::Null,
        ValueParts::Bool(b) => serde_json::Value::Bool(b),
        ValueParts::Number(n) => serde_json::Value::Number(n),
        ValueParts::Text(s) => serde_json::Value::String(s),
        ValueParts::Array(items) => serde_json::Value::Array(items),
        ValueParts::Object(entries) => serde_json::Value::Object(entries.into_iter().collect()),
    }
}

/// `serde_json::from_str` into a `serde_json::Value`. What it reads, or the
/// message of the error it gives, is a function of the text alone. From the text
/// of an object, made of the literals of its keys and of what `serde_json` prints
/// for its values, it reads that object; the last value under a key counts. Left
/// out are values that hold a float, which may come back changed in its last
/// digit, and values that are nested more deeply than `serde_json` reads: it
/// gives up at the 128th level, and the object itself is the first.
#[verifier::external_body]
fn read_value(text: &str) -> (r: Result<serde_json::Value, String>)
    ensures
        match r {
            Ok(v) => parsed_text(text@) == Ok::<JsonView, Seq<char>>(value_content(v)),
            Err(message) => parsed_text(text@) == Err::<JsonView, Seq<char>>(message@),
        },
        forall|pairs: Pairs|
            text@ == #[trigger] object_text(pairs) && readable_pairs(pairs) ==> r is Ok
                && value_content(r->Ok_0) == JsonView::Object(pairs_map(pairs)),
{
    serde_json::from_str::<serde_json::Value>(text).map_err(|e| e.to_string())
}

/// `Display` of `serde_json::Value`: the compact text of the tree, a function
/// of the tree because its objects are kept in the order of their keys. A
/// string is printed as a quoted literal, and a list of strings as their
/// literals, with commas between them and brackets around.
#[verifier::external_body]
fn print_value(v: &serde_json::Value) -> (r: String)
    ensures
        r@ == compact_text(value_content(*v)),
        value_content(*v) matches JsonView::Text(s) ==> r@ == quoted(s),
        forall|list: Seq<Seq<char>>|
            value_content(*v) == #[trigger] texts_view(list) ==> r@ == quoted_list(list),
{
    v.to_string()
}

/// `serde_json::to_string_pretty` of a `serde_json::Value`: the indented text
/// of the tree, a function of the tree.
#[verifier::external_body]
fn print_value_pretty(v: &serde_json::Value) -> (r: Option<String>)
    ensures
        opt_text(r) == pretty_text(value_content(*v)),
{
    serde_json::to_string_pretty(v).ok()
}

// ---------------------------------------------------------------------------
// Values
// ---------------------------------------------------------------------------

/// The mathematical form of a JSON value.
#[verifier::ext_equal]
pub enum JsonView {
    Null,
    Bool(bool),
    Int(int),
    Float(serde_json::Number),
    Text(Seq<char>),
    Array(Seq<JsonView>),
    Object(Map<Seq<char>, JsonView>),
}

/// A JSON value. Where a key stands more than once in an object, its last entry
/// counts.
#[derive(Debug, PartialEq, Eq)]
pub enum Json {
    Null,
    Bool(bool),
    Number(serde_json::Number),
    Text(String),
    Array(Vec<Json>),
    Object(Vec<(String, Json)>),
}

pub open spec fn number_view(n: serde_json::Number) -> JsonView {
    match number_int(n) {
        Some(i) => JsonView::Int(i),
        None => JsonView::Float(n),
    }
}

pub open spec fn json_view(j: Json) -> JsonView
    decreases j,
{
    match j {
        Json::Null => JsonView::Null,
        Json::Bool(b) => JsonView::Bool(b),
        Json::Number(n) => number_view(n),
        Json::Text(s) => JsonView::Text(s@),
        Json::Array(items) => JsonView::Array(
            Seq::new(
                items@.len(),
                |i: int|
                    if 0 <= i < items@.len() {
                        json_view(items@[i])
                    } else {
                        JsonView::Null
                    },
            ),
        ),
        Json::Object(entries) => JsonView::Object(entries_view(entries@)),
    }
}

/// The map that a list of entries stands for.
pub open spec fn entries_view(entries: Seq<(String, Json)>) -> Map<Seq<char>, JsonView>
    decreases entries,
{
    if entries.len() == 0 {
        Map::empty()
    } else {
        entries_view(entries.drop_last()).insert(entries.last().0@, json_view(entries.last().1))
    }
}

impl View for Json {
    type V = JsonView;

    open spec fn view(&self) -> JsonView {
        json_view(*self)
    }
}

/// The views of a list of values.
pub open spec fn views(items: Seq<Json>) -> Seq<JsonView> {
    items.map_values(|j: Json| j@)
}

pub proof fn lemma_array_view(items: Vec<Json>)
    ensures
        json_view(Json::Array(items)) == JsonView::Array(views(items@)),
{
    assert(json_view(Json::Array(items))->Array_0 =~= views(items@));
}

/// The value under a key, if the value is an object that has it.
pub open spec fn field(v: JsonView, key: Seq<char>) -> Option<JsonView> {
    match v {
        JsonView::Object(m) => if m.contains_key(key) {
            Some(m[key])
        } else {
            None
        },
        _ => None,
    }
}

/// The value under a key, or `null`.
pub open spec fn field_or_null(v: JsonView, key: Seq<char>) -> JsonView {
    match field(v, key) {
        Some(x) => x,
        None => JsonView::Null,
    }
}

/// What is put under a key of an object is found there, and what stands under the
/// other keys stays; in an empty object, and in what is no object, nothing is found.
pub proof fn law_entries_are_found(
    m: Map<Seq<char>, JsonView>,
    key: Seq<char>,
    value: JsonView,
    other: Seq<char>,
    v: JsonView,
)
    ensures
        field(JsonView::Object(m.insert(key, value)), key) == Some(value),
        other != key ==> field(JsonView::Object(m.insert(key, value)), other) == field(
            JsonView::Object(m),
            other,
        ),
        field(JsonView::Object(Map::empty()), key) is None,
        !(v is Object) ==> field(v, key) is None,
{
}

/// The text under a key, if a text stands there.
pub open spec fn text_field(v: JsonView, key: Seq<char>) -> Option<Seq<char>> {
    match field(v, key) {
        Some(JsonView::Text(s)) => Some(s),
        _ => None,
    }
}

/// The truth value under a key, if one stands there.
pub open spec fn bool_field(v: JsonView, key: Seq<char>) -> Option<bool> {
    match field(v, key) {
        Some(JsonView::Bool(b)) => Some(b),
        _ => None,
    }
}

/// The items of the array under a key; none where no array stands there.
pub open spec fn items_field(v: JsonView, key: Seq<char>) -> Seq<JsonView> {
    match field(v, key) {
        Some(JsonView::Array(items)) => items,
        _ => Seq::empty(),
    }
}

pub open spec fn opt_json(j: Option<Json>) -> Option<JsonView> {
    match j {
        Some(j) => Some(j@),
        None => None,
    }
}

/// The view of an outcome: a value, or the text of an error.
pub open spec fn outcome_view(r: Result<Json, String>) -> Result<JsonView, Seq<char>> {
    match r {
        Ok(j) => Ok(j@),
        Err(e) => Err(e@),
    }
}

/// An optional integer as a value: `null` where there is none.
pub open spec fn opt_int_view(n: Option<i32>) -> JsonView {
    match n {
        Some(n) => JsonView::Int(n as int),
        None => JsonView::Null,
    }
}

/// An optional text as a value: `null` where there is none.
pub open spec fn opt_text_view(s: Option<Seq<char>>) -> JsonView {
    match s {
        Some(s) => JsonView::Text(s),
        None => JsonView::Null,
    }
}

/// A list of texts as a value.
pub open spec fn texts_view(list: Seq<Seq<char>>) -> JsonView {
    JsonView::Array(list.map_values(|s: Seq<char>| JsonView::Text(s)))
}

// ---------------------------------------------------------------------------
// String literals
// ---------------------------------------------------------------------------

/// How a character stands inside a JSON string literal.
pub open spec fn escaped(c: char) -> Seq<char> {
    if c == '"' {
        seq!['\\', '"']
    } else if c == '\\' {
        seq!['\\', '\\']
    } else if c == '\u{8}' {
        seq!['\\', 'b']
    } else if c == '\u{9}' {
        seq!['\\', 't']
    } else if c == '\u{a}' {
        seq!['\\', 'n']
    } else if c == '\u{c}' {
        seq!['\\', 'f']
    } else if c == '\u{d}' {
        seq!['\\', 'r']
    } else if (c as int) < 32 {
        seq![
            '\\',
            'u',
            '0',
            '0',
            digit(c as int / 16),
            digit(c as int % 16),
        ]
    } else {
        seq![c]
    }
}

/// The characters of a text, each as it stands inside a string literal.
pub open spec fn escaped_text(s: Seq<char>) -> Seq<char>
    decreases s.len(),
{
    if s.len() == 0 {
        Seq::<char>::empty()
    } else {
        escaped_text(s.drop_last()) + escaped(s.last())
    }
}

/// The string literal of a text.
pub open spec fn quoted(s: Seq<char>) -> Seq<char> {
    seq!['"'] + escaped_text(s) + seq!['"']
}

/// The literal of a list of texts.
pub open spec fn quoted_list(list: Seq<Seq<char>>) -> Seq<char> {
    seq!['['] + join(list.map_values(|s: Seq<char>| quoted(s)), seq![',']) + seq![']']
}

/// Keys and values in an order.
pub type Pairs = Seq<(Seq<char>, JsonView)>;

/// A key and a value as they stand in the text of an object.
pub open spec fn pair_text(pair: (Seq<char>, JsonView)) -> Seq<char> {
    quoted(pair.0) + seq![':'] + compact_text(pair.1)
}

/// The text of an object with its keys in a given order.
pub open spec fn object_text(pairs: Pairs) -> Seq<char> {
    seq!['{'] + join(
        pairs.map_values(|pair: (Seq<char>, JsonView)| pair_text(pair)),
        seq![','],
    ) + seq!['}']
}

/// The map that a list of keys and values stands for.
pub open spec fn pairs_map(pairs: Pairs) -> Map<Seq<char>, JsonView>
    decreases pairs.len(),
{
    if pairs.len() == 0 {
        Map::empty()
    } else {
        pairs_map(pairs.drop_last()).insert(pairs.last().0, pairs.last().1)
    }
}

/// Whether a value holds no float, no integer beyond the machine's and at most
/// `depth` arrays and objects inside each other.
pub open spec fn readable(v: JsonView, depth: nat) -> bool
    decreases depth,
{
    match v {
        JsonView::Int(i) => i64::MIN <= i <= u64::MAX,
        JsonView::Float(_) => false,
        JsonView::Array(items) => depth > 0 && forall|i: int|
            0 <= i < items.len() ==> readable(#[trigger] items[i], (depth - 1) as nat),
        JsonView::Object(m) => depth > 0 && m.dom().finite() && forall|key: Seq<char>| #[trigger]
            m.contains_key(key) ==> readable(m[key], (depth - 1) as nat),
        _ => true,
    }
}

/// Whether the values of an object are readable inside of it.
pub open spec fn readable_pairs(pairs: Pairs) -> bool {
    forall|i: int| 0 <= i < pairs.len() ==> readable((#[trigger] pairs[i]).1, 126)
}

proof fn lemma_escaped_from_front(s: Seq<char>)
    requires
        s.len() > 0,
    ensures
        escaped_text(s) == escaped(s[0]) + escaped_text(s.drop_first()),
    decreases s.len(),
{
    if s.len() == 1 {
        assert(s.drop_last() =~= Seq::<char>::empty());
        assert(s.drop_first() =~= Seq::<char>::empty());
        assert(escaped_text(s) =~= escaped(s[0]) + escaped_text(s.drop_first()));
    } else {
        let front = s.drop_last();
        lemma_escaped_from_front(front);
        assert(front.drop_first() =~= s.drop_first().drop_last());
        assert(s.drop_first().last() == s.last());
        assert(escaped_text(s) =~= escaped(s[0]) + escaped_text(s.drop_first()));
    }
}

proof fn lemma_hex_digit(d: int)
    requires
        0 <= d < 16,
    ensures
        (digit(d) as int) >= 32,
        digit(d) != '"',
        digit(d) != '\\',
{
}

/// What each character of a literal is made of.
proof fn lemma_escaped(c: char)
    ensures
        escaped(c).len() > 0,
        forall|i: int| 0 <= i < escaped(c).len() ==> (#[trigger] escaped(c)[i] as int) >= 32,
        escaped(c).len() == 1 ==> escaped(c)[0] != '"' && escaped(c)[0] != '\\',
        escaped(c).len() > 1 ==> escaped(c)[0] == '\\' && forall|i: int|
            2 <= i < escaped(c).len() ==> #[trigger] escaped(c)[i] != '"' && escaped(c)[i] != '\\',
{
    if (c as int) < 32 {
        lemma_hex_digit(c as int / 16);
        lemma_hex_digit(c as int % 16);
    }
}

/// Where a literal ends whose opening quote has just been read: at the first quote
/// that is not escaped.
pub open spec fn literal_end(t: Seq<char>) -> Option<int>
    decreases t.len(),
{
    if t.len() == 0 {
        None
    } else if t[0] == '"' {
        Some(0)
    } else if t[0] == '\\' {
        if t.len() < 2 {
            None
        } else {
            match literal_end(t.skip(2)) {
                Some(k) => Some(k + 2),
                None => None,
            }
        }
    } else {
        match literal_end(t.skip(1)) {
            Some(k) => Some(k + 1),
            None => None,
        }
    }
}

proof fn lemma_plain_run(run: Seq<char>, t: Seq<char>)
    requires
        forall|i: int| 0 <= i < run.len() ==> #[trigger] run[i] != '"' && run[i] != '\\',
    ensures
        literal_end(run + t) == match literal_end(t) {
            Some(k) => Some(k + run.len()),
            None => None,
        },
    decreases run.len(),
{
    if run.len() > 0 {
        let rest = run.drop_first();
        assert forall|i: int| 0 <= i < rest.len() implies #[trigger] rest[i] != '"' && rest[i]
            != '\\' by {
            assert(rest[i] == run[i + 1]);
        }
        lemma_plain_run(rest, t);
        assert((run + t)[0] == run[0]);
        assert((run + t).skip(1) =~= rest + t);
    } else {
        assert(run + t =~= t);
    }
}

/// The literal of a text ends where it should, whatever the text holds and
/// whatever follows: nothing in the text can end it early.
pub proof fn law_literal_is_closed(s: Seq<char>, rest: Seq<char>)
    ensures
        literal_end(escaped_text(s) + seq!['"'] + rest) == Some(escaped_text(s).len() as int),
    decreases s.len(),
{
    let t = escaped_text(s) + seq!['"'] + rest;
    if s.len() == 0 {
        assert(t[0] == '"');
    } else {
        lemma_escaped_from_front(s);
        lemma_escaped(s[0]);
        let c = escaped(s[0]);
        let inner = escaped_text(s.drop_first()) + seq!['"'] + rest;
        law_literal_is_closed(s.drop_first(), rest);
        assert(t =~= c + inner);
        if c.len() == 1 {
            lemma_plain_run(c, inner);
        } else {
            let run = c.skip(2);
            assert forall|i: int| 0 <= i < run.len() implies #[trigger] run[i] != '"' && run[i]
                != '\\' by {
                assert(run[i] == c[i + 2]);
            }
            lemma_plain_run(run, inner);
            assert(t[0] == '\\');
            assert(t.skip(2) =~= run + inner);
        }
    }
}

/// No control character stands in a literal as it is.
pub proof fn law_literal_is_printable(s: Seq<char>, i: int)
    requires
        0 <= i < quoted(s).len(),
    ensures
        (quoted(s)[i] as int) >= 32,
    decreases s.len(),
{
    lemma_escaped_printable(s);
    if 0 < i < quoted(s).len() - 1 {
        assert(quoted(s)[i] == escaped_text(s)[i - 1]);
    }
}

proof fn lemma_escaped_printable(s: Seq<char>)
    ensures
        forall|i: int| 0 <= i < escaped_text(s).len() ==> (#[trigger] escaped_text(s)[i] as int) >= 32,
    decreases s.len(),
{
    if s.len() > 0 {
        lemma_escaped_printable(s.drop_last());
        lemma_escaped(s.last());
        let front = escaped_text(s.drop_last());
        let c = escaped(s.last());
        assert forall|i: int| 0 <= i < escaped_text(s).len() implies (#[trigger] escaped_text(
            s,
        )[i] as int) >= 32 by {
            if i < front.len() {
                assert(escaped_text(s)[i] == front[i]);
            } else {
                assert(escaped_text(s)[i] == c[i - front.len()]);
            }
        }
    }
}

// ---------------------------------------------------------------------------
// Building and reading
// ---------------------------------------------------------------------------

/// Adds an entry to the entries of an object.
pub fn put(entries: &mut Vec<(String, Json)>, key: &str, value: Json)
    ensures
        entries_view(final(entries)@) == entries_view(old(entries)@).insert(key@, value@),
{
    let ghost before = entries@;
    entries.push((key.to_owned(), value));
    assert(entries@.drop_last() =~= before);
}

impl Clone for Json {
    fn clone(&self) -> (r: Self)
        ensures
            r@ == self@,
        decreases self,
    {
        match self {
            Json::Null => Json::Null,
            Json::Bool(b) => Json::Bool(*b),
            Json::Number(n) => Json::Number(copy_number(n)),
            Json::Text(s) => Json::Text(s.clone()),
            Json::Array(items) => {
                let mut out: Vec<Json> = Vec::new();
                let mut i: usize = 0;
                while i < items.len()
                    invariant
                        i <= items@.len(),
                        *self == Json::Array(*items),
                        views(out@) == views(items@).take(i as int),
                    decreases items.len() - i,
                {
                    assert(decreases_to!(self->Array_0@ => self->Array_0@[i as int]));
                    let item = items[i].clone();
                    let ghost before = out@;
                    out.push(item);
                    assert(views(out@) =~= views(before).push(item@));
                    assert(views(items@).take(i + 1) =~= views(items@).take(i as int).push(
                        items@[i as int]@,
                    ));
                    i += 1;
                }
                proof {
                    lemma_array_view(*items);
                    lemma_array_view(out);
                    assert(views(out@) =~= views(items@));
                }
                Json::Array(out)
            },
            Json::Object(entries) => {
                let mut out: Vec<(String, Json)> = Vec::new();
                let mut i: usize = 0;
                while i < entries.len()
                    invariant
                        i <= entries@.len(),
                        *self == Json::Object(*entries),
                        entries_view(out@) == entries_view(entries@.take(i as int)),
                    decreases entries.len() - i,
                {
                    assert(decreases_to!(self->Object_0@ => self->Object_0@[i as int]));
                    assert(decreases_to!(self->Object_0@[i as int] => self->Object_0@[i as int].1));
                    let value = entries[i].1.clone();
                    put(&mut out, entries[i].0.as_str(), value);
                    assert(entries@.take(i + 1).drop_last() =~= entries@.take(i as int));
                    i += 1;
                }
                assert(entries@.take(entries@.len() as int) =~= entries@);
                Json::Object(out)
            },
        }
    }
}

impl Json {
    /// A text as a value.
    pub fn text(s: &str) -> (r: Json)
        ensures
            r@ == JsonView::Text(s@),
    {
        Json::Text(s.to_owned())
    }

    /// A natural number as a value.
    pub fn unsigned(n: u64) -> (r: Json)
        ensures
            r@ == JsonView::Int(n as int),
    {
        Json::Number(number_from_u64(n))
    }

    /// An integer as a value.
    pub fn integer(n: i64) -> (r: Json)
        ensures
            r@ == JsonView::Int(n as int),
    {
        Json::Number(number_from_i64(n))
    }

    /// An optional number as a value: `null` where there is none.
    pub fn opt_int(n: Option<i32>) -> (r: Json)
        ensures
            r@ == opt_int_view(n),
    {
        match n {
            Some(n) => Json::integer(n as i64),
            None => Json::Null,
        }
    }

    /// An optional text as a value: `null` where there is none.
    pub fn opt_text(s: Option<&str>) -> (r: Json)
        ensures
            r@ == opt_text_view(opt_str(s)),
    {
        match s {
            Some(s) => Json::text(s),
            None => Json::Null,
        }
    }

    /// A list of values as one value.
    pub fn array(items: Vec<Json>) -> (r: Json)
        ensures
            r@ == JsonView::Array(views(items@)),
    {
        proof {
            lemma_array_view(items);
        }
        Json::Array(items)
    }

    /// A list of texts as a value.
    pub fn text_array(list: &Vec<String>) -> (r: Json)
        ensures
            r@ == texts_view(texts(list@)),
    {
        let mut out: Vec<Json> = Vec::new();
        let mut i: usize = 0;
        while i < list.len()
            invariant
                i <= list@.len(),
                out@.len() == i,
                forall|k: int| 0 <= k < i ==> out@[k]@ == JsonView::Text(#[trigger] list@[k]@),
            decreases list.len() - i,
        {
            out.push(Json::text(list[i].as_str()));
            i += 1;
        }
        assert(views(out@) =~= texts_view(texts(list@))->Array_0);
        Json::array(out)
    }

    /// The value under a key of an object.
    pub fn get(&self, key: &str) -> (r: Option<&Json>)
        ensures
            match r {
                Some(j) => field(self@, key@) == Some(j@),
                None => field(self@, key@) is None,
            },
    {
        match self {
            Json::Object(entries) => {
                let mut i: usize = entries.len();
                assert(entries@.take(i as int) =~= entries@);
                while i > 0
                    invariant
                        i <= entries@.len(),
                        *self == Json::Object(*entries),
                        field(JsonView::Object(entries_view(entries@.take(i as int))), key@)
                            == field(self@, key@),
                    decreases i,
                {
                    let ghost front = entries@.take(i as int);
                    assert(front.drop_last() =~= entries@.take(i - 1));
                    i -= 1;
                    if same(entries[i].0.as_str(), key) {
                        return Some(&entries[i].1);
                    }
                }
                assert(entries@.take(0).len() == 0);
                None
            },
            _ => None,
        }
    }

    /// A copy of the value under a key, or `null`.
    pub fn get_or_null(&self, key: &str) -> (r: Json)
        ensures
            r@ == field_or_null(self@, key@),
    {
        match self.get(key) {
            Some(j) => j.clone(),
            None => Json::Null,
        }
    }

    /// The text that the value is, if it is one.
    pub fn as_str(&self) -> (r: Option<&str>)
        ensures
            match r {
                Some(s) => self@ == JsonView::Text(s@),
                None => !(self@ is Text),
            },
    {
        match self {
            Json::Text(s) => Some(s.as_str()),
            _ => None,
        }
    }

    /// The truth value that the value is, if it is one.
    pub fn as_bool(&self) -> (r: Option<bool>)
        ensures
            match r {
                Some(b) => self@ == JsonView::Bool(b),
                None => !(self@ is Bool),
            },
    {
        match self {
            Json::Bool(b) => Some(*b),
            _ => None,
        }
    }

    /// The integer that the value is, if it is one that an `i64` can hold.
    pub fn as_integer(&self) -> (r: Option<i64>)
        ensures
            match r {
                Some(i) => self@ == JsonView::Int(i as int),
                None => self@ matches JsonView::Int(i) ==> !(i64::MIN <= i <= i64::MAX),
            },
    {
        match self {
            Json::Number(n) => number_as_i64(n),
            _ => None,
        }
    }

    /// The items of the value, if it is an array.
    pub fn as_array(&self) -> (r: Option<&Vec<Json>>)
        ensures
            match r {
                Some(items) => self@ == JsonView::Array(views(items@)),
                None => !(self@ is Array),
            },
    {
        match self {
            Json::Array(items) => {
                proof {
                    lemma_array_view(*items);
                }
                Some(items)
            },
            _ => None,
        }
    }

    /// Whether the value is a number.
    pub fn is_number(&self) -> (r: bool)
        ensures
            r == (self@ is Int || self@ is Float),
    {
        match self {
            Json::Number(_) => true,
            _ => false,
        }
    }

    /// The text under a key, if a text stands there.
    pub fn get_str(&self, key: &str) -> (r: Option<&str>)
        ensures
            opt_str(r) == text_field(self@, key@),
    {
        match self.get(key) {
            Some(j) => j.as_str(),
            None => None,
        }
    }

    /// The truth value under a key, if one stands there.
    pub fn get_bool(&self, key: &str) -> (r: Option<bool>)
        ensures
            r == bool_field(self@, key@),
    {
        match self.get(key) {
            Some(j) => j.as_bool(),
            None => None,
        }
    }

    /// Copies of the items of the array under a key; none where no array
    /// stands there.
    pub fn get_items(&self, key: &str) -> (r: Vec<Json>)
        ensures
            views(r@) == items_field(self@, key@),
    {
        let mut out: Vec<Json> = Vec::new();
        if let Some(j) = self.get(key) {
            if let Some(items) = j.as_array() {
                let mut i: usize = 0;
                while i < items.len()
                    invariant
                        i <= items@.len(),
                        views(out@) == views(items@).take(i as int),
                    decreases items.len() - i,
                {
                    let item = items[i].clone();
                    let ghost before = out@;
                    out.push(item);
                    assert(views(out@) =~= views(before).push(item@));
                    assert(views(items@).take(i + 1) =~= views(items@).take(i as int).push(
                        items@[i as int]@,
                    ));
                    i += 1;
                }
                assert(views(out@) =~= views(items@));
                return out;
            }
        }
        assert(views(out@) =~= Seq::empty());
        out
    }
}

// ---------------------------------------------------------------------------
// Text
// ---------------------------------------------------------------------------

proof fn lemma_value_entries(entries: Seq<(String, serde_json::Value)>)
    requires
        distinct_keys(entries),
    ensures
        value_entries(entries).dom().finite(),
        forall|i: int|
            0 <= i < entries.len() ==> {
                &&& value_entries(entries).contains_key(#[trigger] entries[i].0@)
                &&& value_entries(entries)[entries[i].0@] == value_content(entries[i].1)
            },
        forall|k: Seq<char>| #[trigger]
            value_entries(entries).contains_key(k) ==> exists|i: int|
                0 <= i < entries.len() && #[trigger] entries[i].0@ == k,
    decreases entries.len(),
{
    if entries.len() > 0 {
        let front = entries.drop_last();
        assert forall|i: int, j: int| 0 <= i < j < front.len() implies #[trigger] front[i].0@
            != #[trigger] front[j].0@ by {
            assert(front[i] == entries[i] && front[j] == entries[j]);
        }
        lemma_value_entries(front);
        assert forall|i: int| 0 <= i < entries.len() implies {
            &&& value_entries(entries).contains_key(#[trigger] entries[i].0@)
            &&& value_entries(entries)[entries[i].0@] == value_content(entries[i].1)
        } by {
            if i < front.len() {
                assert(front[i] == entries[i]);
                assert(entries[i].0@ != entries[entries.len() - 1].0@);
            }
        }
        assert forall|k: Seq<char>| #[trigger] value_entries(entries).contains_key(k) implies exists|
            i: int,
        | 0 <= i < entries.len() && #[trigger] entries[i].0@ == k by {
            if k == entries.last().0@ {
                assert(entries[entries.len() - 1].0@ == k);
            } else {
                assert(value_entries(front).contains_key(k));
                let i = choose|i: int| 0 <= i < front.len() && #[trigger] front[i].0@ == k;
                assert(entries[i].0@ == k);
            }
        }
    }
}

/// Adds an entry to a list of entries with distinct keys, in the place of one
/// with the same key.
#[verifier::rlimit(40)]
fn put_value(entries: &mut Vec<(String, serde_json::Value)>, key: String, value: serde_json::Value)
    requires
        distinct_keys(old(entries)@),
    ensures
        distinct_keys(final(entries)@),
        value_entries(final(entries)@) == value_entries(old(entries)@).insert(
            key@,
            value_content(value),
        ),
{
    let ghost before = entries@;
    let mut i: usize = 0;
    proof {
        lemma_value_entries(before);
    }
    while i < entries.len()
        invariant
            i <= entries@.len(),
            entries@ == before,
            before == old(entries)@,
            distinct_keys(before),
            forall|k: int| 0 <= k < i ==> #[trigger] entries@[k].0@ != key@,
        decreases entries.len() - i,
    {
        if same(entries[i].0.as_str(), key.as_str()) {
            let old_entry = entries.remove(i);
            let ghost rest = entries@;
            assert forall|a: int| 0 <= a < rest.len() implies #[trigger] rest[a] == before[if a < i {
                a
            } else {
                a + 1
            }] by {}
            entries.push((key, value));
            proof {
                let ghost now = entries@;
                assert forall|a: int, b: int| 0 <= a < b < now.len() implies #[trigger] now[a].0@
                    != #[trigger] now[b].0@ by {
                    let a0 = if a < i { a } else { a + 1 };
                    let b0 = if b < i { b } else { b + 1 };
                    assert(now[a] == rest[a] && rest[a] == before[a0]);
                    if b < rest.len() {
                        assert(now[b] == rest[b] && rest[b] == before[b0]);
                        assert(before[a0].0@ != before[b0].0@);
                    } else {
                        assert(before[i as int].0@ == key@);
                        if a0 < i {
                            assert(before[a0].0@ != before[i as int].0@);
                        } else {
                            assert(before[i as int].0@ != before[a0].0@);
                        }
                    }
                }
                lemma_value_entries(before);
                lemma_value_entries(now);
                let m0 = value_entries(before).insert(key@, value_content(value));
                let m1 = value_entries(now);
                assert forall|k: Seq<char>|
                    (#[trigger] m0.dom().contains(k)) == m1.dom().contains(k) && (
                    m0.dom().contains(k) ==> m0[k] == m1[k]) by {
                    if k == key@ {
                        assert(now[now.len() - 1].0@ == k);
                    } else {
                        if m0.contains_key(k) {
                            let a0 = choose|a: int| 0 <= a < before.len() && #[trigger] before[a].0@ == k;
                            let a1 = if a0 < i { a0 } else { a0 - 1 };
                            assert(a0 != i);
                            assert(now[a1] == rest[a1] && rest[a1] == before[a0]);
                            assert(now[a1].0@ == k);
                        }
                        if m1.contains_key(k) {
                            let a1 = choose|a: int| 0 <= a < now.len() && #[trigger] now[a].0@ == k;
                            let a0 = if a1 < i { a1 } else { a1 + 1 };
                            assert(now[a1] == rest[a1] && rest[a1] == before[a0]);
                            assert(before[a0].0@ == k);
                        }
                    }
                }
                assert(m0 =~= m1);
            }
            return ;
        }
        i += 1;
    }
    entries.push((key, value));
    proof {
        let ghost now = entries@;
        assert(now.drop_last() =~= before);
        assert forall|a: int, b: int| 0 <= a < b < now.len() implies #[trigger] now[a].0@
            != #[trigger] now[b].0@ by {
            assert(now[a] == before[a]);
            if b < before.len() {
                assert(now[b] == before[b]);
            }
        }
    }
}

impl Json {
    /// The `serde_json::Value` that holds the value.
    pub fn to_value(&self) -> (r: serde_json::Value)
        ensures
            value_content(r) == self@,
        decreases self,
    {
        match self {
            Json::Null => close_value(ValueParts::Null),
            Json::Bool(b) => close_value(ValueParts::Bool(*b)),
            Json::Number(n) => close_value(ValueParts::Number(copy_number(n))),
            Json::Text(s) => close_value(ValueParts::Text(s.clone())),
            Json::Array(items) => {
                let mut out: Vec<serde_json::Value> = Vec::new();
                let mut i: usize = 0;
                while i < items.len()
                    invariant
                        i <= items@.len(),
                        *self == Json::Array(*items),
                        out@.len() == i,
                        forall|k: int| 0 <= k < i ==> value_content(#[trigger] out@[k]) == items@[k]@,
                    decreases items.len() - i,
                {
                    assert(decreases_to!(self->Array_0@ => self->Array_0@[i as int]));
                    let v = items[i].to_value();
                    out.push(v);
                    i += 1;
                }
                proof {
                    lemma_array_view(*items);
                    assert(out@.map_values(|v: serde_json::Value| value_content(v)) =~= views(
                        items@,
                    ));
                }
                close_value(ValueParts::Array(out))
            },
            Json::Object(entries) => {
                let mut out: Vec<(String, serde_json::Value)> = Vec::new();
                let mut i: usize = 0;
                while i < entries.len()
                    invariant
                        i <= entries@.len(),
                        *self == Json::Object(*entries),
                        distinct_keys(out@),
                        value_entries(out@) == entries_view(entries@.take(i as int)),
                    decreases entries.len() - i,
                {
                    assert(decreases_to!(self->Object_0@ => self->Object_0@[i as int]));
                    assert(decreases_to!(self->Object_0@[i as int] => self->Object_0@[i as int].1));
                    let v = entries[i].1.to_value();
                    put_value(&mut out, entries[i].0.clone(), v);
                    assert(entries@.take(i + 1).drop_last() =~= entries@.take(i as int));
                    i += 1;
                }
                assert(entries@.take(entries@.len() as int) =~= entries@);
                close_value(ValueParts::Object(out))
            },
        }
    }

    /// Reads a JSON text.
    pub fn parse(text: &str) -> (r: Result<Json, String>)
        ensures
            outcome_view(r) == parsed_text(text@),
            forall|pairs: Pairs|
                text@ == #[trigger] object_text(pairs) && readable_pairs(pairs) ==> outcome_view(r)
                    == Ok::<JsonView, Seq<char>>(JsonView::Object(pairs_map(pairs))),
    {
        match read_value(text) {
            Ok(v) => Ok(Json::from_value(v)),
            Err(message) => Err(message),
        }
    }

    /// The compact text of the value.
    pub fn to_text(&self) -> (r: String)
        ensures
            r@ == compact_text(self@),
            self@ matches JsonView::Text(s) ==> r@ == quoted(s),
            forall|list: Seq<Seq<char>>|
                self@ == #[trigger] texts_view(list) ==> r@ == quoted_list(list),
    {
        print_value(&self.to_value())
    }

    /// The indented text of the value, or `{}` where it does not print.
    pub fn to_pretty(&self) -> (r: String)
        ensures
            r@ == match pretty_text(self@) {
                Some(text) => text,
                None => "{}"@,
            },
    {
        match print_value_pretty(&self.to_value()) {
            Some(text) => text,
            None => "{}".to_owned(),
        }
    }

    /// The value that a `serde_json::Value` holds.
    pub fn from_value(v: serde_json::Value) -> (r: Json)
        ensures
            r@ == value_content(v),
        decreases value_content(v),
    {
        match open_value(v) {
            ValueParts::Null => Json::Null,
            ValueParts::Bool(b) => Json::Bool(b),
            ValueParts::Number(n) => Json::Number(n),
            ValueParts::Text(s) => Json::Text(s),
            ValueParts::Array(items) => {
                let ghost all = items@;
                let ghost tree = value_content(v)->Array_0;
                let mut out: Vec<Json> = Vec::new();
                for item in it: items
                    invariant
                        it.seq() == all,
                        value_content(v) == JsonView::Array(tree),
                        tree == all.map_values(|v: serde_json::Value| value_content(v)),
                        views(out@) == tree.take(it.index()),
                {
                    let ghost before = out@;
                    assert(value_content(v)->Array_0[it.index()] == value_content(item));
                    assert(decreases_to!(value_content(v)->Array_0 => value_content(item)));
                    let j = Json::from_value(item);
                    out.push(j);
                    assert(views(out@) =~= views(before).push(j@));
                    assert(tree.take(it.index() + 1) =~= tree.take(it.index()).push(j@));
                }
                assert(tree.take(tree.len() as int) =~= tree);
                Json::array(out)
            },
            ValueParts::Object(entries) => {
                let ghost all = entries@;
                let ghost tree = value_content(v)->Object_0;
                let mut out: Vec<(String, Json)> = Vec::new();
                proof {
                    lemma_value_entries(all);
                }
                for entry in it: entries
                    invariant
                        it.seq() == all,
                        value_content(v) == JsonView::Object(tree),
                        tree == value_entries(all),
                        tree.dom().finite(),
                        forall|i: int|
                            0 <= i < all.len() ==> {
                                &&& tree.contains_key(#[trigger] all[i].0@)
                                &&& tree[all[i].0@] == value_content(all[i].1)
                            },
                        entries_view(out@) == value_entries(all.take(it.index())),
                {
                    assert(all[it.index()] == entry);
                    assert(value_content(v)->Object_0.contains_key(all[it.index()].0@));
                    assert(decreases_to!(value_content(v)->Object_0 => value_content(v)->Object_0[entry.0@]));
                    let j = Json::from_value(entry.1);
                    put(&mut out, entry.0.as_str(), j);
                    assert(all.take(it.index() + 1).drop_last() =~= all.take(it.index()));
                }
                assert(all.take(all.len() as int) =~= all);
                Json::Object(out)
            },
        }
    }
}

} // verus!
