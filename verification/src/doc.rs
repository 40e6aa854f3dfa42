//! Trusted boundary around the `toml_edit` document tree.
//!
//! The document type keeps the source formatting of every node it parsed, so
//! the library stores manifests as `toml_edit::Document` values and reads and
//! edits them only through the functions here.  Each function makes one small
//! chain of `toml_edit` calls, mirroring how the converter walks a manifest:
//! a dependency table is addressed by an optional build-target condition and
//! a dependency-kind key, never by a long-lived reference into the tree.
//!
//! The models: `doc_entries` gives the root table's visible entries and
//! `item_model` the model of one item, as defined in [`crate::model`].  A
//! table slot can also hold the empty item, which `toml_edit` hides from
//! every lookup, iteration and from output; such slots are left behind by
//! some mutating paths of `toml_edit` that this library does not take.
//! `doc_tidy` and `item_tidy` say that no table anywhere in the value has
//! such a hidden slot: the parser produces no hidden slots, and the
//! operations below preserve that, which keeps a table's visible entry order
//! in step with its stored order.

use vstd::prelude::*;

use crate::model::ItemModel;
use crate::model::cfg_list;
use crate::model::distinct_keys;
use crate::model::has_key;
use crate::model::located;
use crate::model::opt_view;
use crate::model::set_in;
use crate::model::set_located;
use crate::model::sort_table_entries;

verus! {

#[verifier::external_type_specification]
#[verifier::external_body]
pub struct ExDocument(toml_edit::Document);

#[verifier::external_type_specification]
#[verifier::external_body]
pub struct ExItem(toml_edit::Item);

/// The visible entries of a document's root table, in source order.
pub uninterp spec fn doc_entries(d: toml_edit::Document) -> Seq<(Seq<char>, ItemModel)>;

/// The model of one item of a document.
pub uninterp spec fn item_model(i: toml_edit::Item) -> ItemModel;

/// No table anywhere in the document holds a hidden slot.
pub uninterp spec fn doc_tidy(d: toml_edit::Document) -> bool;

/// No table anywhere in the item holds a hidden slot.
pub uninterp spec fn item_tidy(i: toml_edit::Item) -> bool;

/// Whether text is a well-formed manifest: parsing it succeeds.  The parse
/// outcome depends on the text alone.
pub uninterp spec fn parses_ok(t: Seq<char>) -> bool;

/// The root entries of the document that well-formed manifest text parses
/// to.  The parsed document depends on the text alone.
pub uninterp spec fn parsed_of(t: Seq<char>) -> Seq<(Seq<char>, ItemModel)>;

/// The text a document serializes to.  It depends on the document alone and
/// keeps the source formatting of every node the library did not rewrite;
/// `toml_edit` itself does not promise it equal to the parsed text for every
/// input (its documentation excepts scattered arrays of tables and the order
/// of dotted keys), so no contract here states that round trip.
pub uninterp spec fn rendered(d: toml_edit::Document) -> Seq<char>;

/// Relies on `toml_edit::Document::from_str`: parses manifest text into a
/// format-preserving document, or reports why the text is not a well-formed
/// manifest.  Success, and the document parsed, are functions of the text
/// alone; a parsed document has no hidden slots.
#[verifier::external_body]
pub(crate) fn parse_document(text: &str) -> (r: Result<toml_edit::Document, String>)
    ensures
        (r is Ok) == parses_ok(text@),
        r matches Ok(d) ==> doc_tidy(d) && doc_entries(d) == parsed_of(text@),
{
    match text.parse::<toml_edit::Document>() {
        Ok(d) => Ok(d),
        Err(e) => Err(format!("{e}")),
    }
}

/// Relies on `toml_edit::Document`'s display form: serializes the document,
/// keeping the source formatting of every node the library did not rewrite.
#[verifier::external_body]
pub(crate) fn render_document(d: &toml_edit::Document) -> (r: String)
    ensures
        r@ == rendered(*d),
{
    d.to_string()
}

/// Relies on `toml_edit::Table::iter`: the keys of the root target section,
/// in source order, when that section is a full table.  Keys of one table are
/// pairwise distinct.
#[verifier::external_body]
pub(crate) fn target_cfgs(d: &toml_edit::Document) -> (r: Vec<String>)
    ensures
        r@.map_values(|s: String| s@) == cfg_list(doc_entries(*d)),
        forall|i: int, j: int| 0 <= i < j < r@.len() ==> (#[trigger] r@[i])@ != (#[trigger] r@[j])@,
{
    d.as_table()
        .get("target")
        .and_then(|item| item.as_table())
        .map(|table| table.iter().map(|(key, _)| key.to_string()).collect())
        .unwrap_or_default()
}

/// Relies on `toml_edit`'s `get`, `as_table` and `Table::iter`: the keys of
/// the dependency table at the given place, in stored order, if the locator's
/// walk reaches a full table there.  Keys of one table are pairwise distinct.
#[verifier::external_body]
pub(crate) fn dep_table_keys(
    d: &toml_edit::Document,
    cfg: Option<&str>,
    kind: &str,
) -> (r: Option<Vec<String>>)
    ensures
        match located(doc_entries(*d), opt_view(cfg), kind@) {
            Some(tes) => {
                &&& r matches Some(ks)
                &&& ks@.map_values(|s: String| s@) == tes.map_values(
                    |kv: (Seq<char>, ItemModel)| kv.0,
                )
                &&& distinct_keys(tes)
            },
            None => r is None,
        },
{
    let item = match cfg {
        None => d.as_table().get(kind),
        Some(c) => d.as_table().get("target").and_then(|i| i.get(c)).and_then(|i| i.get(kind)),
    };
    item.and_then(|i| i.as_table()).map(|t| t.iter().map(|(k, _)| k.to_string()).collect())
}

/// Relies on `toml_edit`'s `get` and `Item::clone`: a copy of the named entry
/// of the dependency table at the given place, if the walk reaches a full
/// table holding that entry.
#[verifier::external_body]
pub(crate) fn dep_entry_get(
    d: &toml_edit::Document,
    cfg: Option<&str>,
    kind: &str,
    name: &str,
) -> (r: Option<toml_edit::Item>)
    ensures
        match located(doc_entries(*d), opt_view(cfg), kind@) {
            Some(tes) => match crate::model::lookup(tes, name@) {
                Some(m) => {
                    &&& r matches Some(it)
                    &&& item_model(it) == m
                    &&& doc_tidy(*d) ==> item_tidy(it)
                },
                None => r is None,
            },
            None => r is None,
        },
{
    let item = match cfg {
        None => d.as_table().get(kind),
        Some(c) => d.as_table().get("target").and_then(|i| i.get(c)).and_then(|i| i.get(kind)),
    };
    item.and_then(|i| i.as_table()).and_then(|t| t.get(name)).cloned()
}

/// Relies on `toml_edit::Item::as_str`: the string a value holds, when the
/// item is a bare string value.
#[verifier::external_body]
pub(crate) fn item_version_string(i: &toml_edit::Item) -> (r: Option<String>)
    ensures
        match item_model(*i) {
            ItemModel::VStr { s } => r matches Some(v) && v@ == s,
            _ => r is None,
        },
{
    i.as_str().map(|s| s.to_string())
}

/// Relies on `toml_edit::Item::is_inline_table`.
#[verifier::external_body]
pub(crate) fn item_is_inline_table(i: &toml_edit::Item) -> (r: bool)
    ensures
        r == (item_model(*i) is VInline),
{
    i.is_inline_table()
}

/// Relies on `toml_edit::InlineTable::into_table`: turns an inline table into
/// a full table holding the same entries in the same order; the new table
/// does not wrap dotted keys.
#[verifier::external_body]
pub(crate) fn inline_item_into_table_item(i: toml_edit::Item) -> (r: toml_edit::Item)
    requires
        item_model(i) is VInline,
    ensures
        item_model(r) == (ItemModel::Tab {
            dotted: false,
            entries: crate::model::table_like_entries(item_model(i)).unwrap(),
        }),
        item_tidy(i) ==> item_tidy(r),
{
    if let toml_edit::Item::Value(toml_edit::Value::InlineTable(t)) = i {
        toml_edit::Item::Table(t.into_table())
    } else {
        toml_edit::Item::None
    }
}

/// Relies on `toml_edit::Table::new`, `Table::insert` and `toml_edit::value`:
/// a fresh table item holding the given string under the version key, and
/// nothing else.
#[verifier::external_body]
pub(crate) fn version_table_item(version: &str) -> (r: toml_edit::Item)
    ensures
        item_model(r) == (ItemModel::Tab {
            dotted: false,
            entries: seq![
                (crate::model::version_key(), ItemModel::VStr { s: version@ }),
            ],
        }),
        item_tidy(r),
{
    let mut table = toml_edit::Table::new();
    table.insert("version", toml_edit::value(version));
    toml_edit::Item::Table(table)
}

/// Relies on `toml_edit::Table::insert`: stores the item under the named key
/// of the dependency table at the given place, keeping the entry's position.
#[verifier::external_body]
pub(crate) fn dep_table_swap(
    d: &mut toml_edit::Document,
    cfg: Option<&str>,
    kind: &str,
    name: &str,
    item: toml_edit::Item,
)
    requires
        doc_tidy(*old(d)),
        item_tidy(item),
        item_model(item) is Tab,
        located(doc_entries(*old(d)), opt_view(cfg), kind@) matches Some(tes) && has_key(
            tes,
            name@,
        ),
    ensures
        doc_tidy(*final(d)),
        doc_entries(*final(d)) == set_located(
            doc_entries(*old(d)),
            opt_view(cfg),
            kind@,
            set_in(
                located(doc_entries(*old(d)), opt_view(cfg), kind@).unwrap(),
                name@,
                item_model(item),
            ),
        ),
{
    let t = match cfg {
        None => d.as_table_mut().get_mut(kind).and_then(|i| i.as_table_mut()),
        Some(c) => d
            .as_table_mut()
            .get_mut("target")
            .and_then(|i| i.get_mut(c))
            .and_then(|i| i.get_mut(kind))
            .and_then(|i| i.as_table_mut()),
    };
    if let Some(t) = t {
        t.insert(name, item);
    }
}

/// Relies on `toml_edit::Table::sort_values`: reorders the entries of the
/// dependency table at the given place by key, sorting tables that wrap
/// dotted keys in turn, and leaving every other value as it is.
#[verifier::external_body]
pub(crate) fn dep_table_sort(d: &mut toml_edit::Document, cfg: Option<&str>, kind: &str)
    requires
        located(doc_entries(*old(d)), opt_view(cfg), kind@) is Some,
    ensures
        doc_tidy(*old(d)) ==> doc_tidy(*final(d)),
        doc_entries(*final(d)) == set_located(
            doc_entries(*old(d)),
            opt_view(cfg),
            kind@,
            sort_table_entries(located(doc_entries(*old(d)), opt_view(cfg), kind@).unwrap()),
        ),
{
    let t = match cfg {
        None => d.as_table_mut().get_mut(kind).and_then(|i| i.as_table_mut()),
        Some(c) => d
            .as_table_mut()
            .get_mut("target")
            .and_then(|i| i.get_mut(c))
            .and_then(|i| i.get_mut(kind))
            .and_then(|i| i.as_table_mut()),
    };
    if let Some(t) = t {
        t.sort_values();
    }
}

/// Relies on `toml_edit::Table::set_implicit`: marks the dependency table at
/// the given place so that its own header line is left out when its content
/// already names it, a formatting flag with no bearing on the data.
#[verifier::external_body]
pub(crate) fn dep_table_set_implicit(d: &mut toml_edit::Document, cfg: Option<&str>, kind: &str)
    requires
        located(doc_entries(*old(d)), opt_view(cfg), kind@) is Some,
    ensures
        doc_tidy(*old(d)) ==> doc_tidy(*final(d)),
        doc_entries(*final(d)) == doc_entries(*old(d)),
{
    let t = match cfg {
        None => d.as_table_mut().get_mut(kind).and_then(|i| i.as_table_mut()),
        Some(c) => d
            .as_table_mut()
            .get_mut("target")
            .and_then(|i| i.get_mut(c))
            .and_then(|i| i.get_mut(kind))
            .and_then(|i| i.as_table_mut()),
    };
    if let Some(t) = t {
        t.set_implicit(true);
    }
}

} // verus!
