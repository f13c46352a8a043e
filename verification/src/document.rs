//! A TOML document as plain values: strings, arrays and tables, everything
//! else kept only as "some other value". Parsing itself is done by the `toml`
//! crate.

use vstd::prelude::*;

use toml::Value;

verus! {

/// A value of the `toml` crate.
#[verifier::external_type_specification]
#[verifier::external_body]
pub struct ExTomlValue(Value);

/// A TOML value as the library reads it.
pub enum TomlItem {
    Str(String),
    Array(Vec<TomlItem>),
    /// The entries of a table, each key once.
    Table(Vec<(String, TomlItem)>),
    /// An integer, float, boolean or datetime.
    Other,
}

/// The mathematical value of a `TomlItem`.
pub enum TomlValue {
    Str(Seq<char>),
    Array(Seq<TomlValue>),
    Table(Seq<(Seq<char>, TomlValue)>),
    Other,
}

pub open spec fn item_view(t: TomlItem) -> TomlValue
    decreases t, 1nat,
{
    match t {
        TomlItem::Str(s) => TomlValue::Str(s@),
        TomlItem::Array(a) => TomlValue::Array(items_view(a@)),
        TomlItem::Table(e) => TomlValue::Table(entries_view(e@)),
        TomlItem::Other => TomlValue::Other,
    }
}

pub open spec fn items_view(s: Seq<TomlItem>) -> Seq<TomlValue>
    decreases s, 0nat,
{
    if s.len() == 0 {
        Seq::empty()
    } else {
        items_view(s.drop_last()).push(item_view(s[s.len() - 1]))
    }
}

pub open spec fn entries_view(s: Seq<(String, TomlItem)>) -> Seq<(Seq<char>, TomlValue)>
    decreases s, 0nat,
{
    if s.len() == 0 {
        Seq::empty()
    } else {
        entries_view(s.drop_last()).push((s[s.len() - 1].0@, item_view(s[s.len() - 1].1)))
    }
}

impl View for TomlItem {
    type V = TomlValue;

    open spec fn view(&self) -> TomlValue {
        item_view(*self)
    }
}

/// What the `toml` crate makes of a text: the document it parses, as a
/// table, or the message of the error it reports.
pub uninterp spec fn toml_document(text: Seq<char>) -> Result<TomlValue, Seq<char>>;

/// `toml::from_str::<toml::Value>`: parse a whole TOML document.
///
/// Trusted: the parsed document, converted to plain values, or the text of
/// the error, is what `toml_document` names for the text. Nothing is said of
/// which texts parse.
#[verifier::external_body]
pub(crate) fn parse_document(text: &str) -> (r: Result<TomlItem, String>)
    ensures
        match r {
            Ok(d) => toml_document(text@) == Ok::<TomlValue, Seq<char>>(d@),
            Err(m) => toml_document(text@) == Err::<TomlValue, Seq<char>>(m@),
        },
{
    match toml::from_str::<Value>(text) {
        Ok(v) => Ok(item_from(v)),
        Err(e) => Err(e.to_string()),
    }
}

/// The conversion of a parsed `toml::Value` into a `TomlItem`, variant by
/// variant; used by `parse_document` alone, whose contract covers it.
#[verifier::external_body]
fn item_from(v: Value) -> TomlItem {
    match v {
        Value::String(s) => TomlItem::Str(s),
        Value::Array(a) => TomlItem::Array(a.into_iter().map(item_from).collect()),
        Value::Table(t) => TomlItem::Table(t.into_iter().map(|(k, x)| (k, item_from(x))).collect()),
        Value::Integer(_) => TomlItem::Other,
        Value::Float(_) => TomlItem::Other,
        Value::Boolean(_) => TomlItem::Other,
        Value::Datetime(_) => TomlItem::Other,
    }
}

// ---------------------------------------------------------------------------
// Reading values
// ---------------------------------------------------------------------------

/// The value of the first entry named `key`.
pub open spec fn entry_of(entries: Seq<(Seq<char>, TomlValue)>, key: Seq<char>) -> Option<TomlValue>
    decreases entries.len(),
{
    if entries.len() == 0 {
        None
    } else if entries[0].0 == key {
        Some(entries[0].1)
    } else {
        entry_of(entries.drop_first(), key)
    }
}

/// The value under `key` of a table; nothing for any other value.
pub open spec fn value_at(t: TomlValue, key: Seq<char>) -> Option<TomlValue> {
    match t {
        TomlValue::Table(entries) => entry_of(entries, key),
        _ => None,
    }
}

/// The string under `key`, or the empty string where there is none.
pub open spec fn str_at(t: TomlValue, key: Seq<char>) -> Seq<char> {
    match value_at(t, key) {
        Some(TomlValue::Str(s)) => s,
        _ => Seq::empty(),
    }
}

/// The array under `key`, or the empty array where there is none.
pub open spec fn array_at(t: TomlValue, key: Seq<char>) -> Seq<TomlValue> {
    match value_at(t, key) {
        Some(TomlValue::Array(a)) => a,
        _ => Seq::empty(),
    }
}

proof fn lemma_entries_view_index(s: Seq<(String, TomlItem)>, i: int)
    requires
        0 <= i < s.len(),
    ensures
        entries_view(s).len() == s.len(),
        entries_view(s)[i] == (s[i].0@, s[i].1@),
    decreases s.len(),
{
    lemma_entries_view_len(s);
    if i < s.len() - 1 {
        lemma_entries_view_index(s.drop_last(), i);
        assert(s.drop_last()[i] == s[i]);
    }
}

proof fn lemma_entries_view_len(s: Seq<(String, TomlItem)>)
    ensures
        entries_view(s).len() == s.len(),
    decreases s.len(),
{
    if s.len() > 0 {
        lemma_entries_view_len(s.drop_last());
    }
}

/// `entries_view` of a suffix is the suffix of `entries_view`.
proof fn lemma_entries_view_skip(s: Seq<(String, TomlItem)>, i: int)
    requires
        0 <= i <= s.len(),
    ensures
        entries_view(s.subrange(i, s.len() as int)) == entries_view(s).subrange(i, s.len() as int),
{
    let a = entries_view(s.subrange(i, s.len() as int));
    let b = entries_view(s).subrange(i, s.len() as int);
    lemma_entries_view_len(s.subrange(i, s.len() as int));
    lemma_entries_view_len(s);
    assert forall|k: int| 0 <= k < a.len() implies a[k] == b[k] by {
        lemma_entries_view_index(s.subrange(i, s.len() as int), k);
        lemma_entries_view_index(s, i + k);
    }
    assert(a =~= b);
}

proof fn lemma_items_view_index(s: Seq<TomlItem>, i: int)
    requires
        0 <= i < s.len(),
    ensures
        items_view(s).len() == s.len(),
        items_view(s)[i] == s[i]@,
    decreases s.len(),
{
    lemma_items_view_len(s);
    if i < s.len() - 1 {
        lemma_items_view_index(s.drop_last(), i);
        assert(s.drop_last()[i] == s[i]);
    }
}

/// The length of `items_view`.
pub proof fn lemma_items_view_len(s: Seq<TomlItem>)
    ensures
        items_view(s).len() == s.len(),
    decreases s.len(),
{
    if s.len() > 0 {
        lemma_items_view_len(s.drop_last());
    }
}

/// Each element of an array, by its view.
pub proof fn lemma_items_view(s: Seq<TomlItem>)
    ensures
        items_view(s).len() == s.len(),
        forall|i: int| 0 <= i < s.len() ==> #[trigger] items_view(s)[i] == s[i]@,
{
    lemma_items_view_len(s);
    assert forall|i: int| 0 <= i < s.len() implies #[trigger] items_view(s)[i] == s[i]@ by {
        lemma_items_view_index(s, i);
    }
}

/// The value under `key` of a table (`toml::Value::get` with a string key).
pub fn item_at<'a>(t: &'a TomlItem, key: &String) -> (r: Option<&'a TomlItem>)
    ensures
        match r {
            Some(v) => value_at(t@, key@) == Some(v@),
            None => value_at(t@, key@) is None,
        },
{
    match t {
        TomlItem::Table(entries) => {
            let ghost ev = entries_view(entries@);
            proof {
                lemma_entries_view_len(entries@);
                lemma_entries_view_skip(entries@, 0);
                assert(entries@.subrange(0, entries@.len() as int) =~= entries@);
                assert(ev.subrange(0, ev.len() as int) =~= ev);
                assert(t@ == TomlValue::Table(ev));
            }
            let mut i: usize = 0;
            while i < entries.len()
                invariant
                    i <= entries@.len(),
                    ev == entries_view(entries@),
                    ev.len() == entries@.len(),
                    t@ == TomlValue::Table(ev),
                    entry_of(ev, key@) == entry_of(ev.subrange(i as int, ev.len() as int), key@),
                decreases entries@.len() - i,
            {
                let ghost rest = ev.subrange(i as int, ev.len() as int);
                proof {
                    lemma_entries_view_index(entries@, i as int);
                    assert(rest[0] == ev[i as int]);
                    assert(rest.drop_first() =~= ev.subrange(i + 1, ev.len() as int));
                }
                if entries[i].0 == *key {
                    proof {
                        assert(entry_of(rest, key@) == Some(ev[i as int].1));
                    }
                    return Some(&entries[i].1);
                }
                i += 1;
            }
            None
        },
        _ => None,
    }
}

/// The string under `key`, or an empty string.
pub fn str_item_at(t: &TomlItem, key: &String) -> (r: String)
    ensures
        r@ == str_at(t@, key@),
{
    match item_at(t, key) {
        Some(TomlItem::Str(s)) => s.clone(),
        _ => String::new(),
    }
}

/// The array under `key`, where there is one.
pub fn array_item_at<'a>(t: &'a TomlItem, key: &String) -> (r: Option<&'a Vec<TomlItem>>)
    ensures
        match r {
            Some(a) => array_at(t@, key@) == items_view(a@),
            None => array_at(t@, key@) == Seq::<TomlValue>::empty(),
        },
{
    match item_at(t, key) {
        Some(TomlItem::Array(a)) => Some(a),
        _ => None,
    }
}

} // verus!
