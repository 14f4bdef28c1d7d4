//! TOML documents through `toml_edit`, which keeps comments and layout when a
//! document is edited. What a document or table holds is described by
//! `TomlItem` values.
use vstd::prelude::*;
use toml_edit::{DocumentMut, Item, Table, TomlError, Value};

verus! {

#[verifier::external_type_specification]
#[verifier::external_body]
pub struct ExDocumentMut(DocumentMut);

#[verifier::external_type_specification]
#[verifier::external_body]
pub struct ExTable(Table);

#[verifier::external_type_specification]
#[verifier::external_body]
pub struct ExItem(Item);

#[verifier::external_type_specification]
#[verifier::external_body]
pub struct ExTomlError(TomlError);

/// What a TOML item holds, as far as the configuration logic reads it.
pub enum TomlItem {
    /// An empty slot (`Item::None`).
    Empty,
    /// A boolean value.
    Bool(bool),
    /// An integer value.
    Integer(i64),
    /// An array whose elements are all strings.
    Strings(Seq<Seq<char>>),
    /// A table (`[name]`), by key.
    Table(Map<Seq<char>, TomlItem>),
    /// Any other value (strings, floats, dates, other arrays, inline tables)
    /// or an array of tables.
    Other,
}

/// What a table holds, by key (empty slots included).
pub uninterp spec fn table_entries(t: Table) -> Map<Seq<char>, TomlItem>;

/// What a document's root table holds, by key.
pub uninterp spec fn document_entries(d: DocumentMut) -> Map<Seq<char>, TomlItem>;

/// What an item holds.
pub uninterp spec fn item_model(i: Item) -> TomlItem;

/// What the TOML text parses to, if it parses.
pub uninterp spec fn parsed_document(text: Seq<char>) -> Option<Map<Seq<char>, TomlItem>>;

/// No entries.
pub open spec fn no_entries() -> Map<Seq<char>, TomlItem> {
    Map::empty()
}

/// A key with an item that is not an empty slot (`Table::contains_key`).
pub open spec fn has_item(m: Map<Seq<char>, TomlItem>, k: Seq<char>) -> bool {
    m.contains_key(k) && !(m[k] is Empty)
}

/// `<DocumentMut as FromStr>::from_str`: parses TOML text, keeping its
/// layout. The result is named: `Ok` exactly when the text parses, holding what
/// it parses to.
#[verifier::external_body]
pub(crate) fn parse_document(text: &str) -> (r: Result<DocumentMut, TomlError>)
    ensures
        match r {
            Ok(d) => parsed_document(text@) == Some(document_entries(d)),
            Err(_) => parsed_document(text@) is None,
        },
{
    text.parse::<DocumentMut>()
}

/// `DocumentMut::as_table`: the root table of a document.
#[verifier::external_body]
pub(crate) fn document_table(d: &DocumentMut) -> (r: &Table)
    ensures
        table_entries(*r) == document_entries(*d),
{
    d.as_table()
}

/// `DocumentMut::as_table_mut`: the root table of a document, for editing;
/// the document afterwards holds what the table holds, and is the very same
/// document (layout and comments included) when the table is left as it was.
#[verifier::external_body]
pub(crate) fn document_table_mut(d: &mut DocumentMut) -> (r: &mut Table)
    ensures
        table_entries(*r) == document_entries(*old(d)),
        document_entries(*final(d)) == table_entries(*final(r)),
        *final(r) == *r ==> *final(d) == *old(d),
{
    d.as_table_mut()
}

/// `Table::get`: the item under a key, unless absent or an empty slot.
#[verifier::external_body]
pub(crate) fn table_get<'a>(t: &'a Table, key: &str) -> (r: Option<&'a Item>)
    ensures
        r is Some <==> has_item(table_entries(*t), key@),
        r matches Some(i) ==> item_model(*i) == table_entries(*t)[key@],
{
    t.get(key)
}

/// `Table::get_mut`: the item under a key for editing, unless absent or an
/// empty slot; the table afterwards holds the edited item there.
#[verifier::external_body]
pub(crate) fn table_get_mut<'a>(t: &'a mut Table, key: &str) -> (r: Option<&'a mut Item>)
    ensures
        r is Some <==> has_item(table_entries(*old(t)), key@),
        match r {
            Some(i) => item_model(*i) == table_entries(*old(t))[key@] && table_entries(*final(t))
                == table_entries(*old(t)).insert(key@, item_model(*final(i))),
            None => table_entries(*final(t)) == table_entries(*old(t)),
        },
{
    t.get_mut(key)
}

/// `Table::contains_key`: a key with an item that is not an empty slot.
#[verifier::external_body]
pub(crate) fn table_contains_key(t: &Table, key: &str) -> (r: bool)
    ensures
        r == has_item(table_entries(*t), key@),
{
    t.contains_key(key)
}

/// `Table::insert`: puts the item under the key, returning what was there
/// (an empty slot included).
#[verifier::external_body]
pub(crate) fn table_insert(t: &mut Table, key: &str, item: Item) -> (r: Option<Item>)
    ensures
        table_entries(*final(t)) == table_entries(*old(t)).insert(key@, item_model(item)),
        r is Some <==> table_entries(*old(t)).contains_key(key@),
        r matches Some(x) ==> item_model(x) == table_entries(*old(t))[key@],
{
    t.insert(key, item)
}

/// `Table::remove`: takes the key out, returning what was there (an empty
/// slot included).
#[verifier::external_body]
pub(crate) fn table_remove(t: &mut Table, key: &str) -> (r: Option<Item>)
    ensures
        table_entries(*final(t)) == table_entries(*old(t)).remove(key@),
        r is Some <==> table_entries(*old(t)).contains_key(key@),
        r matches Some(x) ==> item_model(x) == table_entries(*old(t))[key@],
{
    t.remove(key)
}

/// `Table::entry` then `Entry::or_insert_with` an empty table: the item under
/// the key (an empty slot included), or a new empty table put there. For a
/// key already present the table is not touched, so it is the very same table
/// when that item is left as it was.
#[verifier::external_body]
pub(crate) fn table_entry_or_new_table<'a>(t: &'a mut Table, key: &str) -> (r: &'a mut Item)
    ensures
        item_model(*r) == if table_entries(*old(t)).contains_key(key@) {
            table_entries(*old(t))[key@]
        } else {
            TomlItem::Table(no_entries())
        },
        table_entries(*final(t)) == table_entries(*old(t)).insert(key@, item_model(*final(r))),
        table_entries(*old(t)).contains_key(key@) && *final(r) == *r ==> *final(t) == *old(t),
{
    t.entry(key).or_insert_with(|| Item::Table(Table::new()))
}

/// `Item::as_table_mut`: the table of a table item, for editing. The item is
/// the very same item when the table is left as it was, or when it is no table.
#[verifier::external_body]
pub(crate) fn item_as_table_mut(i: &mut Item) -> (r: Option<&mut Table>)
    ensures
        r is Some <==> item_model(*old(i)) is Table,
        match r {
            Some(t) => item_model(*old(i)) == TomlItem::Table(table_entries(*t)) && item_model(*final(i))
                == TomlItem::Table(table_entries(*final(t))) && (*final(t) == *t ==> *final(i) == *old(i)),
            None => *final(i) == *old(i),
        },
{
    i.as_table_mut()
}

/// `Item::as_bool`: the boolean of a boolean value.
#[verifier::external_body]
pub(crate) fn item_as_bool(i: &Item) -> (r: Option<bool>)
    ensures
        r == match item_model(*i) {
            TomlItem::Bool(b) => Some(b),
            _ => None,
        },
{
    i.as_bool()
}

/// `Item::as_integer`: the integer of an integer value.
#[verifier::external_body]
pub(crate) fn item_as_integer(i: &Item) -> (r: Option<i64>)
    ensures
        r == match item_model(*i) {
            TomlItem::Integer(v) => Some(v),
            _ => None,
        },
{
    i.as_integer()
}

/// `toml_edit::value` of a boolean.
#[verifier::external_body]
pub(crate) fn bool_item(b: bool) -> (r: Item)
    ensures
        item_model(r) == TomlItem::Bool(b),
{
    toml_edit::value(b)
}

/// `toml_edit::value` of an integer.
#[verifier::external_body]
pub(crate) fn integer_item(v: i64) -> (r: Item)
    ensures
        item_model(r) == TomlItem::Integer(v),
{
    toml_edit::value(v)
}

/// `Table::new`: an empty table.
#[verifier::external_body]
pub(crate) fn new_table() -> (r: Table)
    ensures
        table_entries(r) == no_entries(),
{
    Table::new()
}

/// `Item::Table`: a table as an item.
#[verifier::external_body]
pub(crate) fn table_item(t: Table) -> (r: Item)
    ensures
        item_model(r) == TomlItem::Table(table_entries(t)),
{
    Item::Table(t)
}

/// An array value of strings (`Array` collected from the strings).
#[verifier::external_body]
pub(crate) fn strings_item(items: &Vec<&str>) -> (r: Item)
    ensures
        item_model(r) == TomlItem::Strings(items@.map_values(|s: &str| s@)),
{
    Item::Value(Value::Array(items.iter().copied().collect()))
}

/// `Table::key_mut`, `KeyMut::leaf_decor_mut` and `Decor::set_prefix`: puts
/// the text (such as a comment) before the key in the written document. This
/// changes layout only; what the table holds stays the same.
#[verifier::external_body]
pub(crate) fn set_key_prefix(t: &mut Table, key: &str, prefix: &str)
    ensures
        table_entries(*final(t)) == table_entries(*old(t)),
{
    if let Some(mut k) = t.key_mut(key) {
        k.leaf_decor_mut().set_prefix(prefix);
    }
}

} // verus!
