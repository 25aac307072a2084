//! The description of a chip as it is read: a flat table of keys and
//! values.

use vstd::prelude::*;

verus! {

/// The value of one key, as far as a description of a chip looks at it.
#[derive(Debug)]
pub enum Value {
    Text(String),
    Integer(i64),
    /// Anything that is neither a text nor a whole number.
    Other,
}

/// One key of a table, with its value.
#[derive(Debug)]
pub struct Entry {
    pub key: String,
    pub value: Value,
}

/// What reading a text as a document gave.
#[derive(Debug)]
pub enum Document {
    /// The keys of the document, in the order the table keeps them.
    Table(Vec<Entry>),
    /// The text was read as one value that is no table.
    Scalar,
    /// The text is no document; the reader's complaint.
    Invalid(String),
}

/// What a `Value` holds.
pub enum Item {
    Text(Seq<char>),
    Integer(int),
    Other,
}

/// What an `Entry` holds.
pub struct Field {
    pub key: Seq<char>,
    pub item: Item,
}

/// What a `Document` holds.
pub enum Content {
    Table(Seq<Field>),
    Scalar,
    Invalid(Seq<char>),
}

impl View for Value {
    type V = Item;

    open spec fn view(&self) -> Item {
        match self {
            Value::Text(text) => Item::Text(text@),
            Value::Integer(number) => Item::Integer(*number as int),
            Value::Other => Item::Other,
        }
    }
}

impl View for Entry {
    type V = Field;

    open spec fn view(&self) -> Field {
        Field { key: self.key@, item: self.value@ }
    }
}

/// What the entries of a table hold.
pub open spec fn fields_of(entries: Seq<Entry>) -> Seq<Field> {
    entries.map_values(|entry: Entry| entry@)
}

impl View for Document {
    type V = Content;

    open spec fn view(&self) -> Content {
        match self {
            Document::Table(entries) => Content::Table(fields_of(entries@)),
            Document::Scalar => Content::Scalar,
            Document::Invalid(complaint) => Content::Invalid(complaint@),
        }
    }
}

/// What the TOML reader makes of `text`.
pub uninterp spec fn toml_document(text: Seq<char>) -> Content;

/// Reads `text` with `toml`, through `str::parse` to a `toml::Value`. Where
/// the reader fails, its complaint is kept as it prints it. Where it gives
/// a table, each key is kept with its value, in the order in which the
/// table hands them out: a string as `Text`, an integer as `Integer`,
/// anything else as `Other`.
#[verifier::external_body]
pub(crate) fn read_document(text: &str) -> (document: Document)
    ensures
        document@ == toml_document(text@),
{
    match text.parse::<toml::Value>() {
        Err(complaint) => Document::Invalid(complaint.to_string()),
        Ok(toml::Value::Table(table)) => Document::Table(
            table.into_iter().map(|(key, value)| Entry { key, value: match value {
                toml::Value::String(text) => Value::Text(text),
                toml::Value::Integer(number) => Value::Integer(number),
                _ => Value::Other,
            } }).collect(),
        ),
        Ok(_) => Document::Scalar,
    }
}

/// The value that the table has for `key`.
pub open spec fn lookup(fields: Seq<Field>, key: Seq<char>) -> Option<Item>
    decreases fields.len(),
{
    if fields.len() == 0 {
        None
    } else if fields.last().key == key {
        Some(fields.last().item)
    } else {
        lookup(fields.drop_last(), key)
    }
}

/// The value that the table has for `key`.
pub fn find<'a>(entries: &'a Vec<Entry>, key: &str) -> (found: Option<&'a Value>)
    ensures
        match found {
            Some(value) => lookup(fields_of(entries@), key@) == Some(value@),
            None => lookup(fields_of(entries@), key@) is None,
        },
{
    let wanted = key.to_owned();
    let ghost fields = fields_of(entries@);
    let mut i: usize = entries.len();
    assert(fields.take(i as int) == fields);
    while i > 0
        invariant
            i <= entries.len(),
            wanted@ == key@,
            fields == fields_of(entries@),
            lookup(fields, key@) == lookup(fields.take(i as int), key@),
        decreases i,
    {
        proof {
            assert(fields.take(i as int).drop_last() == fields.take(i - 1));
        }
        if entries[i - 1].key == wanted {
            return Some(&entries[i - 1].value);
        }
        i -= 1;
    }
    None
}

} // verus!
