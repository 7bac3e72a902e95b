//! What the elements of a data file declare.
use std::ops::Range;
use vstd::prelude::*;

use crate::constants::{SymType, SymbolId};
use crate::odoo::SyncOdoo;
use crate::xml_node::copy_range;

verus! {

/// An element of a data file that declares something: `<record>`, `<menuitem>`,
/// `<template>` or `<delete>`.
#[derive(Debug)]
pub enum OdooData {
    /// A `<record>`: data of a database record.
    RECORD(OdooDataRecord),
    /// A `<menuitem>`: an entry of the menus.
    MENUITEM(XmlDataMenuItem),
    /// A `<template>`: a QWeb view.
    TEMPLATE(XmlDataTemplate),
    /// A `<delete>`: records to remove.
    DELETE(XmlDataDelete),
}

/// A `<record>` element.
#[derive(Debug)]
pub struct OdooDataRecord {
    /// The XML file that holds the element; it may be gone.
    pub file_symbol: SymbolId,
    /// Name of the model and its byte range.
    pub model: (String, Range<usize>),
    /// The element's XML ID as written.
    pub xml_id: Option<String>,
    pub fields: Vec<OdooDataField>,
    pub range: Range<usize>,
}

/// A `<field>` element of a record.
#[derive(Debug)]
pub struct OdooDataField {
    pub name: String,
    /// Byte range of the whole element.
    pub range: Range<usize>,
    /// Text of the element.
    pub text: Option<String>,
    /// Value and byte range of the `ref` attribute.
    pub ref_key: Option<(String, Range<usize>)>,
    /// Byte range of the text.
    pub text_range: Option<Range<usize>>,
}

/// A `<menuitem>` element.
#[derive(Debug)]
pub struct XmlDataMenuItem {
    pub file_symbol: SymbolId,
    pub xml_id: Option<String>,
    pub range: Range<usize>,
}

/// A `<template>` element.
#[derive(Debug)]
pub struct XmlDataTemplate {
    pub file_symbol: SymbolId,
    pub xml_id: Option<String>,
    pub range: Range<usize>,
}

/// A `<delete>` element.
#[derive(Debug)]
pub struct XmlDataDelete {
    pub file_symbol: SymbolId,
    pub xml_id: Option<String>,
    pub range: Range<usize>,
    /// Model of the records to remove.
    pub model: String,
}

/// Mathematical model of an `OdooDataField`.
#[verifier::ext_equal]
pub struct FieldView {
    pub name: Seq<char>,
    pub range: Range<usize>,
    pub text: Option<Seq<char>>,
    pub ref_key: Option<(Seq<char>, Range<usize>)>,
    pub text_range: Option<Range<usize>>,
}

/// What only a record or a delete carries.
#[verifier::ext_equal]
pub enum DataKind {
    Record { model: Seq<char>, model_range: Range<usize>, fields: Seq<FieldView> },
    MenuItem,
    Template,
    Delete { model: Seq<char> },
}

/// Mathematical model of an `OdooData`.
#[verifier::ext_equal]
pub struct DataView {
    pub file_symbol: SymbolId,
    pub xml_id: Option<Seq<char>>,
    pub range: Range<usize>,
    pub kind: DataKind,
}

/// The characters of an optional string.
pub open spec fn optional_text(s: Option<String>) -> Option<Seq<char>> {
    match s {
        Some(s) => Some(s@),
        None => None,
    }
}

/// A copy of an optional text.
pub fn copy_text(s: &Option<String>) -> (r: Option<String>)
    ensures
        optional_text(r) == optional_text(*s),
{
    match s {
        Some(s) => Some(s.clone()),
        None => None,
    }
}

impl View for OdooDataField {
    type V = FieldView;

    open spec fn view(&self) -> FieldView {
        FieldView {
            name: self.name@,
            range: self.range,
            text: optional_text(self.text),
            ref_key: match self.ref_key {
                Some(key) => Some((key.0@, key.1)),
                None => None,
            },
            text_range: self.text_range,
        }
    }
}

/// The models of a list of fields.
pub open spec fn field_views(v: Seq<OdooDataField>) -> Seq<FieldView> {
    v.map_values(|f: OdooDataField| f@)
}

impl View for OdooData {
    type V = DataView;

    open spec fn view(&self) -> DataView {
        match *self {
            OdooData::RECORD(r) => DataView {
                file_symbol: r.file_symbol,
                xml_id: optional_text(r.xml_id),
                range: r.range,
                kind: DataKind::Record {
                    model: r.model.0@,
                    model_range: r.model.1,
                    fields: field_views(r.fields@),
                },
            },
            OdooData::MENUITEM(m) => DataView {
                file_symbol: m.file_symbol,
                xml_id: optional_text(m.xml_id),
                range: m.range,
                kind: DataKind::MenuItem,
            },
            OdooData::TEMPLATE(t) => DataView {
                file_symbol: t.file_symbol,
                xml_id: optional_text(t.xml_id),
                range: t.range,
                kind: DataKind::Template,
            },
            OdooData::DELETE(d) => DataView {
                file_symbol: d.file_symbol,
                xml_id: optional_text(d.xml_id),
                range: d.range,
                kind: DataKind::Delete { model: d.model@ },
            },
        }
    }
}

/// The models of a list of declarations.
pub open spec fn data_views(v: Seq<OdooData>) -> Seq<DataView> {
    v.map_values(|d: OdooData| d@)
}

impl OdooData {
    /// Records that the declaration stands in the file `xml_symbol`.
    pub fn set_file_symbol(&mut self, xml_symbol: SymbolId)
        ensures
            final(self)@ == (DataView { file_symbol: xml_symbol, ..old(self)@ }),
    {
        match self {
            OdooData::RECORD(record) => {
                record.file_symbol = xml_symbol;
            },
            OdooData::MENUITEM(menu_item) => {
                menu_item.file_symbol = xml_symbol;
            },
            OdooData::TEMPLATE(template) => {
                template.file_symbol = xml_symbol;
            },
            OdooData::DELETE(delete) => {
                delete.file_symbol = xml_symbol;
            },
        }
    }

    /// Byte range of the element.
    pub fn get_range(&self) -> (r: Range<usize>)
        ensures
            r == self@.range,
    {
        match self {
            OdooData::RECORD(record) => copy_range(&record.range),
            OdooData::MENUITEM(menu_item) => copy_range(&menu_item.range),
            OdooData::TEMPLATE(template) => copy_range(&template.range),
            OdooData::DELETE(delete) => copy_range(&delete.range),
        }
    }

    /// The file of the declaration, if it is still there and an XML file.
    pub fn get_xml_file_symbol(&self, odoo: &SyncOdoo) -> (r: Option<SymbolId>)
        ensures
            r == (if odoo.typ(self@.file_symbol) == Some(SymType::XML_FILE) {
                Some(self@.file_symbol)
            } else {
                None
            }),
    {
        let file_symbol: SymbolId = match self.get_file_symbol() {
            Some(id) => id,
            None => {
                return None;
            },
        };
        match odoo.get(file_symbol) {
            Some(symbol) => {
                if symbol.get_type() == SymType::XML_FILE {
                    Some(file_symbol)
                } else {
                    None
                }
            },
            None => None,
        }
    }

    /// The file that the declaration was recorded for. It may be gone, and it may be
    /// of another type than an XML file.
    pub fn get_file_symbol(&self) -> (r: Option<SymbolId>)
        ensures
            r == Some(self@.file_symbol),
    {
        match self {
            OdooData::RECORD(record) => Some(record.file_symbol),
            OdooData::MENUITEM(menu_item) => Some(menu_item.file_symbol),
            OdooData::TEMPLATE(template) => Some(template.file_symbol),
            OdooData::DELETE(delete) => Some(delete.file_symbol),
        }
    }
}

/// What `set_file_symbol` records is what `get_file_symbol` gives back, and nothing
/// else of the declaration changes.
pub proof fn file_symbol_is_kept(before: DataView, after: DataView, file: SymbolId)
    requires
        after == (DataView { file_symbol: file, ..before }),
    ensures
        after.file_symbol == file,
        after.xml_id == before.xml_id && after.range == before.range && after.kind == before.kind,
{
}

} // verus!
