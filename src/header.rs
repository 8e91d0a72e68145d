//! The TOML header of a post file, read and written through the `toml` crate.
use vstd::prelude::*;
use crate::date::Date;
use toml::de::Error as TomlFailure;

verus! {

#[verifier::external_type_specification]
#[verifier::external_body]
pub struct ExTomlValue(toml::Value);

#[verifier::external_type_specification]
#[verifier::external_body]
#[verifier::reject_recursive_types(K)]
#[verifier::reject_recursive_types(V)]
pub struct ExTomlMap<K, V>(toml::map::Map<K, V>);

#[verifier::external_type_specification]
#[verifier::external_body]
pub struct ExTomlDatetime(toml::value::Datetime);

#[verifier::external_type_specification]
#[verifier::external_body]
pub struct ExTomlFailure(TomlFailure);

/// The text that `toml::to_string` writes for a table whose keys `keys`
/// hold a string `title`, a local date, and an array of strings `tags`.
pub uninterp spec fn toml_header_text(
    keys: Seq<Seq<char>>,
    title: Seq<char>,
    year: int,
    month: int,
    day: int,
    tags: Seq<Seq<char>>,
) -> Seq<char>;

/// What a post header's reader sees in a TOML value: a string, a datetime
/// (with its calendar part, if any), an array (with each item's text, or
/// `None` for an item that is not a string), or anything else.
pub enum TomlItem {
    Str(Seq<char>),
    Date(Option<(u16, u8, u8)>),
    Array(Seq<Option<Seq<char>>>),
    Other,
}

/// The text of a string item, if it is one.
pub open spec fn item_text(i: TomlItem) -> Option<Seq<char>> {
    match i {
        TomlItem::Str(s) => Some(s),
        _ => None,
    }
}

/// The top-level keys and values of the document that `toml::from_str`
/// reads from a text as a table; `None` where the text is not TOML.
pub uninterp spec fn toml_table(text: Seq<char>) -> Option<Map<Seq<char>, TomlItem>>;

/// What a TOML table holds: its keys and values.
pub uninterp spec fn table_items(t: toml::Table) -> Map<Seq<char>, TomlItem>;

/// What a TOML value holds.
pub uninterp spec fn value_item(v: toml::Value) -> TomlItem;

/// Relies on `toml::from_str`, reading a document as a table.
#[verifier::external_body]
pub(crate) fn parse_table(text: &str) -> (r: Result<toml::Table, TomlFailure>)
    ensures
        r is Ok <==> toml_table(text@) is Some,
        r matches Ok(t) ==> table_items(t) == toml_table(text@)->0,
{
    toml::from_str::<toml::Table>(text)
}

/// Relies on `toml::map::Map::get`: the value under a key, if any.
#[verifier::external_body]
pub(crate) fn table_get<'a>(table: &'a toml::Table, key: &str) -> (r: Option<&'a toml::Value>)
    ensures
        r is Some <==> table_items(*table).contains_key(key@),
        r matches Some(v) ==> value_item(*v) == table_items(*table)[key@],
{
    table.get(key)
}

/// Relies on `toml::Value::as_str`: the text of a string value.
#[verifier::external_body]
pub(crate) fn value_as_string(value: &toml::Value) -> (r: Option<String>)
    ensures
        r is Some <==> value_item(*value) is Str,
        r matches Some(s) ==> value_item(*value) == TomlItem::Str(s@),
{
    value.as_str().map(|s| s.to_string())
}

/// Relies on `toml::Value::as_array`: the items of an array value.
#[verifier::external_body]
pub(crate) fn value_as_array<'a>(value: &'a toml::Value) -> (r: Option<&'a Vec<toml::Value>>)
    ensures
        r is Some <==> value_item(*value) is Array,
        r matches Some(a) ==> value_item(*value) == TomlItem::Array(
            a@.map_values(|x: toml::Value| item_text(value_item(x))),
        ),
{
    value.as_array()
}

/// Relies on `toml::Value::as_datetime` and the public `date` field of
/// `toml::value::Datetime`: the calendar part of a datetime value.
#[verifier::external_body]
pub(crate) fn value_as_date(value: &toml::Value) -> (r: Option<Option<(u16, u8, u8)>>)
    ensures
        r is Some <==> value_item(*value) is Date,
        r matches Some(d) ==> value_item(*value) == TomlItem::Date(d),
{
    value.as_datetime().map(|d| d.date.map(|x| (x.year, x.month, x.day)))
}

/// Relies on `toml::to_string` on a table of the three header keys
/// (title, date, tags, in that order in `keys`).
#[verifier::external_body]
pub(crate) fn header_text(keys: &Vec<String>, title: &str, date: Date, tags: &Vec<String>) -> (r: String)
    requires
        keys@.len() == 3,
        date.valid(),
        0 <= date.year <= 9999,
    ensures
        r@ == toml_header_text(
            keys@.map_values(|k: String| k@),
            title@,
            date.year as int,
            date.month as int,
            date.day as int,
            tags@.map_values(|t: String| t@),
        ),
{
    let day = toml::value::Date { year: date.year as u16, month: date.month as u8, day: date.day as u8 };
    let stamp = toml::value::Datetime { date: Some(day), time: None, offset: None };
    let mut table = toml::Table::new();
    table.insert(keys[0].clone(), toml::Value::String(title.to_string()));
    table.insert(keys[1].clone(), toml::Value::Datetime(stamp));
    let items = tags.iter().map(|t| toml::Value::String(t.clone())).collect();
    table.insert(keys[2].clone(), toml::Value::Array(items));
    toml::to_string(&table).unwrap()
}

} // verus!
