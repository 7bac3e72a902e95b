//! Structural rules for the elements of XML data files.
//!
//! Every loader reports what breaks a rule; those for elements that declare data
//! register the data under its XML ID.
use vstd::prelude::*;

use crate::diagnostics::{diagnostic_views, is_disabled, no_args, offsets, one_arg, report, reported, two_args, Diagnostic, DiagnosticCode, DiagnosticView};
use crate::odoo::SessionInfo;
use crate::text::{is_float, is_float_seq, is_i32, is_i32_seq, join_seq, join_with, same_text, split_on, split_seq, strip_leading, texts};
use crate::xml_arch_builder::{changes_compose, only_xml_ids_changed, unchanged, XmlArchBuilder};
use crate::xml_data::{copy_text, field_views, optional_text, DataKind, DataView, FieldView, OdooData, OdooDataField, OdooDataRecord, XmlDataDelete, XmlDataMenuItem, XmlDataTemplate};
use crate::xml_ids::{ArchEnv, ArchState, XmlIndex};
use crate::xml_node::{copy_range, NodeKind, XmlAttribute, XmlNode};

verus! {

/// `found` with a diagnostic at `range`, unless its code is switched off.
pub open spec fn flag(
    disabled: Set<DiagnosticCode>,
    found: Seq<DiagnosticView>,
    code: DiagnosticCode,
    args: Seq<Seq<char>>,
    range: std::ops::Range<usize>,
) -> Seq<DiagnosticView> {
    reported(disabled, found, code, args, offsets(range.start, range.end))
}

/// Whether one of the first `n` attributes is called `name`, with or without prefix.
pub open spec fn named_before(node: XmlNode, n: int, name: Seq<char>) -> bool {
    exists|j: int| 0 <= j < n && (#[trigger] node.attributes@[j]).name@ == name
}

/// Whether an attribute is called `name`, with or without prefix.
pub open spec fn named(node: XmlNode, name: Seq<char>) -> bool {
    named_before(node, node.attributes@.len() as int, name)
}

// `<value>`

/// Whether a `<value>` is filled by its text, or by a `type` or `file` among the
/// first `n` attributes.
pub open spec fn value_filled_before(node: XmlNode, n: int) -> bool {
    node.text() is Some || named_before(node, n, "type"@) || named_before(node, n, "file"@)
}

/// Whether a `<value>` is computed by a `search` or an `eval` among the first `n`
/// attributes.
pub open spec fn value_computed_before(node: XmlNode, n: int) -> bool {
    named_before(node, n, "search"@) || named_before(node, n, "eval"@)
}

/// The rules for attribute `i` of a `<value>`: it may not fill or compute what an
/// earlier attribute or the text does in another way.
pub open spec fn value_attribute(
    disabled: Set<DiagnosticCode>,
    found: Seq<DiagnosticView>,
    node: XmlNode,
    i: int,
) -> Seq<DiagnosticView> {
    let attr = node.attributes@[i];
    let name = attr.name@;
    let filled = value_filled_before(node, i);
    let computed = value_computed_before(node, i);
    if name == "name"@ || name == "model"@ || name == "use"@ {
        found
    } else if name == "search"@ {
        if filled || named_before(node, i, "eval"@) {
            flag(disabled, found, DiagnosticCode::OLS05027, seq![], attr.range)
        } else {
            found
        }
    } else if name == "eval"@ {
        if filled || named_before(node, i, "search"@) {
            flag(disabled, found, DiagnosticCode::OLS05028, seq![], attr.range)
        } else {
            found
        }
    } else if name == "type"@ {
        if computed && !disabled.contains(DiagnosticCode::OLS05029) {
            flag(disabled, found, DiagnosticCode::OLS05029, seq![], attr.range)
        } else if !node.has_attribute("file"@) && node.text() is None {
            flag(disabled, found, DiagnosticCode::OLS05036, seq![], attr.range)
        } else {
            found
        }
    } else if name == "file"@ {
        if node.text() is Some && !disabled.contains(DiagnosticCode::OLS05030) {
            flag(disabled, found, DiagnosticCode::OLS05030, seq![], attr.range)
        } else if computed {
            flag(disabled, found, DiagnosticCode::OLS05031, seq![], attr.range)
        } else {
            found
        }
    } else {
        flag(disabled, found, DiagnosticCode::OLS05032, seq![name], attr.range)
    }
}

/// The rules for the first `n` attributes of a `<value>`.
pub open spec fn value_attributes(
    disabled: Set<DiagnosticCode>,
    found: Seq<DiagnosticView>,
    node: XmlNode,
    n: int,
) -> Seq<DiagnosticView>
    decreases n,
{
    if n <= 0 {
        found
    } else {
        value_attribute(disabled, value_attributes(disabled, found, node, n - 1), node, n - 1)
    }
}

/// The rules for a `<value>`: its attributes', and that it holds something.
pub open spec fn value_rules(
    disabled: Set<DiagnosticCode>,
    found: Seq<DiagnosticView>,
    node: XmlNode,
) -> Seq<DiagnosticView> {
    let n = node.attributes@.len() as int;
    let after = value_attributes(disabled, found, node, n);
    if !value_computed_before(node, n) && !value_filled_before(node, n) {
        flag(disabled, after, DiagnosticCode::OLS05037, seq![], node.range)
    } else {
        after
    }
}

// `<function>`

/// The rules for the first `n` attributes of a `<function>`.
pub open spec fn function_attributes(
    disabled: Set<DiagnosticCode>,
    found: Seq<DiagnosticView>,
    node: XmlNode,
    n: int,
) -> Seq<DiagnosticView>
    decreases n,
{
    if n <= 0 {
        found
    } else {
        let before = function_attributes(disabled, found, node, n - 1);
        let attr = node.attributes@[n - 1];
        let name = attr.name@;
        if name == "model"@ || name == "name"@ || name == "uid"@ || name == "context"@ || name
            == "eval"@ {
            before
        } else {
            flag(disabled, before, DiagnosticCode::OLS05046, seq![name], attr.range)
        }
    }
}

/// The rules for the children of a `<function>`: only values and functions, and none
/// of them beside an `eval`.
pub open spec fn function_children(
    disabled: Set<DiagnosticCode>,
    found: Seq<DiagnosticView>,
    children: Seq<XmlNode>,
    has_eval: bool,
) -> Seq<DiagnosticView>
    decreases children,
{
    if children.len() == 0 {
        found
    } else {
        let before = function_children(disabled, found, children.drop_last(), has_eval);
        let child = children.last();
        if child.kind != NodeKind::Element {
            before
        } else if child.tag_name() == "value"@ {
            let after = value_rules(disabled, before, child);
            if has_eval {
                flag(disabled, after, DiagnosticCode::OLS05045, seq![], child.range)
            } else {
                after
            }
        } else if child.tag_name() == "function"@ {
            let after = function_rules(disabled, before, child);
            if has_eval {
                flag(disabled, after, DiagnosticCode::OLS05047, seq![], child.range)
            } else {
                after
            }
        } else {
            flag(disabled, before, DiagnosticCode::OLS05048, seq![child.tag_name()], child.range)
        }
    }
}

/// Whether one of the nodes is a `<value>` or a `<function>`.
pub open spec fn has_argument(children: Seq<XmlNode>) -> bool {
    exists|i: int|
        0 <= i < children.len() && {
            ||| (#[trigger] children[i]).tag_name() == "value"@
            ||| children[i].tag_name() == "function"@
        }
}

/// `found` with a diagnostic for an element that lacks the required attribute `name`.
pub open spec fn lacks(
    disabled: Set<DiagnosticCode>,
    found: Seq<DiagnosticView>,
    node: XmlNode,
    name: Seq<char>,
) -> Seq<DiagnosticView> {
    if node.has_attribute(name) {
        found
    } else {
        flag(disabled, found, DiagnosticCode::OLS05044, seq![name], node.range)
    }
}

/// The rules for a `<function>`: model and name are required, and arguments come
/// from `eval` or from children.
pub open spec fn function_rules(
    disabled: Set<DiagnosticCode>,
    found: Seq<DiagnosticView>,
    node: XmlNode,
) -> Seq<DiagnosticView>
    decreases node,
{
    let lacking = lacks(
        disabled,
        lacks(disabled, found, node, "model"@),
        node,
        "name"@,
    );
    let attributes = function_attributes(
        disabled,
        lacking,
        node,
        node.attributes@.len() as int,
    );
    let has_eval = named(node, "eval"@);
    let children = function_children(disabled, attributes, node.children@, has_eval);
    if !has_eval && !has_argument(node.children@) {
        flag(disabled, children, DiagnosticCode::OLS05038, seq![], node.range)
    } else {
        children
    }
}

// `<menuitem>`

/// Value of the last attribute called `name`, with or without prefix.
pub open spec fn last_named(attributes: Seq<XmlAttribute>, name: Seq<char>) -> Option<Seq<char>>
    decreases attributes.len(),
{
    if attributes.len() == 0 {
        None
    } else if attributes.last().name@ == name {
        Some(attributes.last().value@)
    } else {
        last_named(attributes.drop_last(), name)
    }
}

/// Whether `group`, which a leading `-` negates, is no known group.
pub open spec fn is_missing_group(env: ArchEnv, index: XmlIndex, group: Seq<char>) -> bool {
    !env.resolves_to_group(index, strip_leading(group, '-'))
}

/// `state` after the groups were looked up.
pub open spec fn groups_looked_up(
    env: ArchEnv,
    state: ArchState,
    groups: Seq<Seq<char>>,
    range: std::ops::Range<usize>,
) -> ArchState
    decreases groups.len(),
{
    if groups.len() == 0 {
        state
    } else {
        groups_looked_up(env, state, groups.drop_last(), range).after_lookup(
            env,
            strip_leading(groups.last(), '-'),
            range,
        )
    }
}

/// `state` with a diagnostic for every `<menuitem>` among the children.
pub open spec fn submenus_refused(
    env: ArchEnv,
    state: ArchState,
    children: Seq<XmlNode>,
) -> ArchState
    decreases children.len(),
{
    if children.len() == 0 {
        state
    } else {
        let before = submenus_refused(env, state, children.drop_last());
        if children.last().tag_name() == "menuitem"@ {
            before.emit(env, DiagnosticCode::OLS05009, seq![], children.last().range)
        } else {
            before
        }
    }
}

/// The rule for the groups of a `<menuitem>`: all of them exist.
pub open spec fn menuitem_groups(env: ArchEnv, state: ArchState, attr: XmlAttribute) -> ArchState {
    let groups = split_seq(attr.value@, ',');
    let after = groups_looked_up(env, state, groups, attr.range);
    let missing = join_seq(
        groups.filter(|group: Seq<char>| is_missing_group(env, state.index, group)),
        ',',
    );
    if missing.len() > 0 {
        after.emit(env, DiagnosticCode::OLS05054, seq![missing], attr.range)
    } else {
        after
    }
}

/// The rule for an attribute of a `<menuitem>`.
pub open spec fn menuitem_attribute(
    env: ArchEnv,
    state: ArchState,
    node: XmlNode,
    is_submenu: bool,
    attr: XmlAttribute,
) -> ArchState {
    let name = attr.name@;
    let nested = node.has_attribute("parent"@) || is_submenu;
    if name == "id"@ || name == "name"@ || name == "active"@ {
        state
    } else if name == "sequence"@ {
        if is_i32_seq(attr.value@) {
            state
        } else {
            state.emit(env, DiagnosticCode::OLS05008, seq![], attr.range)
        }
    } else if name == "groups"@ {
        menuitem_groups(env, state, attr)
    } else if name == "action"@ {
        let placed = if nested {
            submenus_refused(env, state, node.children@)
        } else {
            state
        };
        let after = placed.after_lookup(env, attr.value@, attr.range);
        if env.resolves(state.index, attr.value@) {
            after
        } else {
            after.emit(env, DiagnosticCode::OLS05053, seq![attr.value@], attr.range)
        }
    } else if name == "parent"@ {
        if is_submenu {
            state.emit(env, DiagnosticCode::OLS05012, seq![], attr.range)
        } else {
            let after = state.after_lookup(env, attr.value@, attr.range);
            if env.resolves(state.index, attr.value@) {
                after
            } else {
                after.emit(env, DiagnosticCode::OLS05052, seq![attr.value@], attr.range)
            }
        }
    } else if name == "web_icon"@ {
        if nested {
            state.emit(env, DiagnosticCode::OLS05010, seq![], attr.range)
        } else {
            state
        }
    } else {
        state.emit(env, DiagnosticCode::OLS05007, seq![name], attr.range)
    }
}

/// The rules for the first `n` attributes of a `<menuitem>`.
pub open spec fn menuitem_attributes(
    env: ArchEnv,
    state: ArchState,
    node: XmlNode,
    is_submenu: bool,
    n: int,
) -> ArchState
    decreases n,
{
    if n <= 0 {
        state
    } else {
        menuitem_attribute(
            env,
            menuitem_attributes(env, state, node, is_submenu, n - 1),
            node,
            is_submenu,
            node.attributes@[n - 1],
        )
    }
}

/// The rules for the children of a `<menuitem>`: nested menu items, and nothing else.
pub open spec fn menuitem_children(
    env: ArchEnv,
    state: ArchState,
    children: Seq<XmlNode>,
) -> ArchState
    decreases children,
{
    if children.len() == 0 {
        state
    } else {
        let before = menuitem_children(env, state, children.drop_last());
        let child = children.last();
        if child.kind != NodeKind::Element {
            before
        } else if child.tag_name() == "menuitem"@ {
            menuitem_loaded(env, before, child, true)
        } else {
            before.emit(env, DiagnosticCode::OLS05011, seq![child.tag_name()], child.range)
        }
    }
}

/// `state` after a `<menuitem>` was loaded.
pub open spec fn menuitem_loaded(
    env: ArchEnv,
    state: ArchState,
    node: XmlNode,
    is_submenu: bool,
) -> ArchState
    decreases node,
{
    let id = last_named(node.attributes@, "id"@);
    let attributes = menuitem_attributes(
        env,
        state,
        node,
        is_submenu,
        node.attributes@.len() as int,
    );
    let identified = if id is None {
        attributes.emit(env, DiagnosticCode::OLS05006, seq![], node.range)
    } else {
        attributes
    };
    menuitem_children(env, identified, node.children@).register(
        env,
        id,
        node.range,
        DataView {
            file_symbol: env.file,
            xml_id: id,
            range: node.range,
            kind: DataKind::MenuItem,
        },
    )
}

// `<record>` and `<field>`

impl ArchState {
    /// `self` with other diagnostics.
    pub open spec fn with(self, diagnostics: Seq<DiagnosticView>) -> ArchState {
        ArchState { diagnostics, ..self }
    }
}

/// How many of the attributes that give a field its value are there.
pub open spec fn value_attribute_count(node: XmlNode) -> int {
    (if node.has_attribute("type"@) { 1int } else { 0int })
        + (if node.has_attribute("ref"@) { 1int } else { 0int })
        + (if node.has_attribute("eval"@) { 1int } else { 0int })
        + (if node.has_attribute("search"@) { 1int } else { 0int })
}

/// Whether a node is a `<field>` with a name and at most one value.
pub open spec fn is_proper_field(node: XmlNode) -> bool {
    &&& node.tag_name() == "field"@
    &&& node.has_attribute("name"@)
    &&& value_attribute_count(node) <= 1
}

/// Characters and byte range of the last text among the nodes.
pub open spec fn last_text(children: Seq<XmlNode>) -> Option<(Seq<char>, std::ops::Range<usize>)>
    decreases children.len(),
{
    if children.len() == 0 {
        None
    } else if children.last().kind == NodeKind::Text {
        Some((children.last().content@, children.last().range))
    } else {
        last_text(children.drop_last())
    }
}

/// What a `<field>` declares.
pub open spec fn field_of(node: XmlNode) -> FieldView {
    let text = last_text(node.children@);
    FieldView {
        name: node.attribute("name"@)->0.value@,
        range: node.range,
        text: match text {
            Some(text) => Some(text.0),
            None => None,
        },
        text_range: match text {
            Some(text) => Some(text.1),
            None => None,
        },
        ref_key: match node.attribute("ref"@) {
            Some(attr) => Some((attr.value@, attr.range)),
            None => None,
        },
    }
}

/// Whether the type of a field says that its children are values.
pub open spec fn is_list_field(node: XmlNode) -> bool {
    let typ = node.attribute_value("type"@);
    typ == Some("list"@) || typ == Some("tuple"@)
}

/// Whether the type of a field says that its children are free.
pub open spec fn is_markup_field(node: XmlNode) -> bool {
    let typ = node.attribute_value("type"@);
    typ == Some("html"@) || typ == Some("xml"@)
}

/// The rules for the children of a list: values, and nothing else.
pub open spec fn list_children(
    disabled: Set<DiagnosticCode>,
    found: Seq<DiagnosticView>,
    children: Seq<XmlNode>,
) -> Seq<DiagnosticView>
    decreases children.len(),
{
    if children.len() == 0 {
        found
    } else {
        let before = list_children(disabled, found, children.drop_last());
        let child = children.last();
        if child.tag_name() == "value"@ {
            value_rules(disabled, before, child)
        } else {
            flag(disabled, before, DiagnosticCode::OLS05020, seq![child.tag_name()], child.range)
        }
    }
}

/// The rules that the type of a field puts on what the field holds.
pub open spec fn field_type_rules(
    disabled: Set<DiagnosticCode>,
    found: Seq<DiagnosticView>,
    node: XmlNode,
) -> Seq<DiagnosticView> {
    let content = match node.text() {
        Some(text) => text,
        None => ""@,
    };
    match node.attribute_value("type"@) {
        None => found,
        Some(typ) => if typ == "int"@ {
            if is_i32_seq(content) || content == "None"@ {
                found
            } else {
                flag(disabled, found, DiagnosticCode::OLS05018, seq![content], node.range)
            }
        } else if typ == "float"@ {
            if is_float_seq(content) {
                found
            } else {
                flag(disabled, found, DiagnosticCode::OLS05019, seq![content], node.range)
            }
        } else if typ == "list"@ || typ == "tuple"@ {
            list_children(disabled, found, node.children@)
        } else if typ == "base64"@ || typ == "char"@ || typ == "file"@ {
            if node.has_attribute("file"@) && node.text() is Some {
                flag(disabled, found, DiagnosticCode::OLS05021, seq![], node.range)
            } else {
                found
            }
        } else {
            found
        },
    }
}

/// The rule for an attribute of a `<field>`.
pub open spec fn field_attribute(
    disabled: Set<DiagnosticCode>,
    found: Seq<DiagnosticView>,
    node: XmlNode,
    attr: XmlAttribute,
) -> Seq<DiagnosticView> {
    let name = attr.name@;
    if name == "name"@ || name == "type"@ || name == "file"@ {
        found
    } else if name == "ref"@ || name == "eval"@ || name == "search"@ {
        if node.text() is Some {
            flag(disabled, found, DiagnosticCode::OLS05022, seq![name], node.range)
        } else {
            found
        }
    } else if name == "model"@ {
        if node.has_attribute("eval"@) || node.has_attribute("search"@) {
            found
        } else {
            flag(disabled, found, DiagnosticCode::OLS05023, seq![], attr.range)
        }
    } else if name == "use"@ {
        if node.has_attribute("search"@) {
            found
        } else {
            flag(disabled, found, DiagnosticCode::OLS05024, seq![], attr.range)
        }
    } else {
        flag(disabled, found, DiagnosticCode::OLS05025, seq![name], attr.range)
    }
}

/// The rules for the first `n` attributes of a `<field>`.
pub open spec fn field_attributes(
    disabled: Set<DiagnosticCode>,
    found: Seq<DiagnosticView>,
    node: XmlNode,
    n: int,
) -> Seq<DiagnosticView>
    decreases n,
{
    if n <= 0 {
        found
    } else {
        field_attribute(
            disabled,
            field_attributes(disabled, found, node, n - 1),
            node,
            node.attributes@[n - 1],
        )
    }
}

/// The rules for the children of a `<field>`: records are loaded; texts and comments
/// are free, and so is anything if `free`.
pub open spec fn field_children(
    env: ArchEnv,
    state: ArchState,
    children: Seq<XmlNode>,
    free: bool,
) -> ArchState
    decreases children,
{
    if children.len() == 0 {
        state
    } else {
        let before = field_children(env, state, children.drop_last(), free);
        let child = children.last();
        if child.tag_name() == "record"@ {
            record_loaded(env, before, child)
        } else if child.kind == NodeKind::Text || child.kind == NodeKind::Comment || free {
            before
        } else {
            before.emit(env, DiagnosticCode::OLS05026, seq![], child.range)
        }
    }
}

/// `state` after a child of a record was loaded as a field.
pub open spec fn field_loaded(env: ArchEnv, state: ArchState, node: XmlNode) -> ArchState
    decreases node,
{
    if node.tag_name() != "field"@ {
        state
    } else if !node.has_attribute("name"@) {
        state.emit(env, DiagnosticCode::OLS05016, seq![], node.range)
    } else if value_attribute_count(node) > 1 {
        state.emit(env, DiagnosticCode::OLS05017, seq![], node.range)
    } else {
        let typed = field_type_rules(env.disabled, state.diagnostics, node);
        let attributes = field_attributes(
            env.disabled,
            typed,
            node,
            node.attributes@.len() as int,
        );
        field_children(
            env,
            state.with(attributes),
            node.children@,
            is_list_field(node) || is_markup_field(node),
        )
    }
}

/// The rules for the first `n` attributes of a `<record>`.
pub open spec fn record_attributes(
    disabled: Set<DiagnosticCode>,
    found: Seq<DiagnosticView>,
    node: XmlNode,
    n: int,
) -> Seq<DiagnosticView>
    decreases n,
{
    if n <= 0 {
        found
    } else {
        let before = record_attributes(disabled, found, node, n - 1);
        let attr = node.attributes@[n - 1];
        let name = attr.name@;
        if name == "id"@ || name == "forcecreate"@ || name == "model"@ || name == "uid"@ || name
            == "context"@ {
            before
        } else {
            flag(disabled, before, DiagnosticCode::OLS05013, seq![name], attr.range)
        }
    }
}

/// The rules for the children of a `<record>`: fields, and nothing else.
pub open spec fn record_children(
    env: ArchEnv,
    state: ArchState,
    children: Seq<XmlNode>,
) -> ArchState
    decreases children,
{
    if children.len() == 0 {
        state
    } else {
        let before = record_children(env, state, children.drop_last());
        let child = children.last();
        if child.kind != NodeKind::Element {
            before
        } else if child.tag_name() == "field"@ {
            field_loaded(env, before, child)
        } else {
            before.emit(env, DiagnosticCode::OLS05015, seq![child.tag_name()], child.range)
        }
    }
}

/// What the proper fields among the children of a record declare.
pub open spec fn record_fields(children: Seq<XmlNode>) -> Seq<FieldView>
    decreases children.len(),
{
    if children.len() == 0 {
        Seq::empty()
    } else {
        let before = record_fields(children.drop_last());
        if is_proper_field(children.last()) {
            before.push(field_of(children.last()))
        } else {
            before
        }
    }
}

/// `state` after a `<record>` was loaded.
pub open spec fn record_loaded(env: ArchEnv, state: ArchState, node: XmlNode) -> ArchState
    decreases node,
{
    let id = last_named(node.attributes@, "id"@);
    let attributes = state.with(
        record_attributes(
            env.disabled,
            state.diagnostics,
            node,
            node.attributes@.len() as int,
        ),
    );
    if !named(node, "model"@) {
        attributes.emit(env, DiagnosticCode::OLS05014, seq![], node.range)
    } else {
        record_children(env, attributes, node.children@).register(
            env,
            id,
            node.range,
            DataView {
                file_symbol: env.file,
                xml_id: id,
                range: node.range,
                kind: DataKind::Record {
                    model: node.attribute("model"@)->0.value@,
                    model_range: node.attribute("model"@)->0.value_range,
                    fields: record_fields(node.children@),
                },
            },
        )
    }
}

// `<template>` and `<delete>`

/// `state` after a `<template>` was loaded.
pub open spec fn template_loaded(env: ArchEnv, state: ArchState, node: XmlNode) -> ArchState {
    let id = node.attribute_value("id"@);
    state.register(
        env,
        id,
        node.range,
        DataView {
            file_symbol: env.file,
            xml_id: id,
            range: node.range,
            kind: DataKind::Template,
        },
    )
}

/// `state` after a `<delete>` was loaded: a model is required, and either an ID or a
/// search.
pub open spec fn delete_loaded(env: ArchEnv, state: ArchState, node: XmlNode) -> ArchState {
    let id = node.attribute_value("id"@);
    if !node.has_attribute("model"@) {
        state.emit(env, DiagnosticCode::OLS05033, seq![], node.range)
    } else {
        let checked = if id is Some && node.has_attribute("search"@) {
            state.emit(env, DiagnosticCode::OLS05034, seq![], node.range)
        } else if id is None && !node.has_attribute("search"@) {
            state.emit(env, DiagnosticCode::OLS05035, seq![], node.range)
        } else {
            state
        };
        checked.register(
            env,
            id,
            node.range,
            DataView {
                file_symbol: env.file,
                xml_id: id,
                range: node.range,
                kind: DataKind::Delete { model: node.attribute_value("model"@)->0 },
            },
        )
    }
}

// `<report>`

/// The rules for a `<report>`: model, name and string are required.
pub open spec fn report_rules(
    disabled: Set<DiagnosticCode>,
    found: Seq<DiagnosticView>,
    node: XmlNode,
) -> Seq<DiagnosticView> {
    lacks(
        disabled,
        lacks(disabled, lacks(disabled, found, node, "model"@), node, "name"@),
        node,
        "string"@,
    )
}

// `<odoo>`, `<openerp>` and `<data>`

/// Whether a node can be the root of a data file.
pub open spec fn is_root(node: XmlNode) -> bool {
    let tag = node.tag_name();
    tag == "odoo"@ || tag == "openerp"@ || tag == "data"@
}

/// The rules for the first `n` attributes of a root.
pub open spec fn root_attributes(
    disabled: Set<DiagnosticCode>,
    found: Seq<DiagnosticView>,
    node: XmlNode,
    n: int,
) -> Seq<DiagnosticView>
    decreases n,
{
    if n <= 0 {
        found
    } else {
        let before = root_attributes(disabled, found, node, n - 1);
        let attr = node.attributes@[n - 1];
        let name = attr.name@;
        if name == "noupdate"@ || name == "auto_sequence"@ || name == "uid"@ || name
            == "context"@ {
            before
        } else {
            flag(
                disabled,
                before,
                DiagnosticCode::OLS05004,
                seq![name, node.tag_name()],
                attr.range,
            )
        }
    }
}

/// `state` after the children of a root called `parent` were loaded.
pub open spec fn root_children(
    env: ArchEnv,
    state: ArchState,
    children: Seq<XmlNode>,
    parent: Seq<char>,
) -> ArchState
    decreases children,
{
    if children.len() == 0 {
        state
    } else {
        let before = root_children(env, state, children.drop_last(), parent);
        let child = children.last();
        let tag = child.tag_name();
        if child.kind != NodeKind::Element {
            before
        } else if is_root(child) {
            root_loaded(env, before, child)
        } else if tag == "menuitem"@ {
            menuitem_loaded(env, before, child, false)
        } else if tag == "record"@ {
            record_loaded(env, before, child)
        } else if tag == "template"@ {
            template_loaded(env, before, child)
        } else if tag == "delete"@ {
            delete_loaded(env, before, child)
        } else if tag == "function"@ {
            before.with(function_rules(env.disabled, before.diagnostics, child))
        } else if tag == "report"@ {
            before.with(report_rules(env.disabled, before.diagnostics, child))
        } else {
            before.emit(env, DiagnosticCode::OLS05005, seq![tag, parent], child.range)
        }
    }
}

/// `state` after a root and all that stands in it was loaded.
pub open spec fn root_loaded(env: ArchEnv, state: ArchState, node: XmlNode) -> ArchState
    decreases node,
{
    root_children(
        env,
        state.with(
            root_attributes(
                env.disabled,
                state.diagnostics,
                node,
                node.attributes@.len() as int,
            ),
        ),
        node.children@,
        node.tag_name(),
    )
}

impl XmlArchBuilder {
    /// Applies the rules for a `<value>`; returns whether the node is one.
    fn load_value(
        &self,
        session: &SessionInfo,
        node: &XmlNode,
        diagnostics: &mut Vec<Diagnostic>,
    ) -> (r: bool)
        ensures
            r == (node.tag_name() == "value"@),
            diagnostic_views(final(diagnostics)@) == if r {
                value_rules(session.disabled(), diagnostic_views(old(diagnostics)@), *node)
            } else {
                diagnostic_views(old(diagnostics)@)
            },
    {
        if !node.is_tag("value") {
            return false;
        }
        let ghost start = diagnostic_views(diagnostics@);
        let ghost disabled = session.disabled();
        let has_text = node.get_text().is_some();
        let mut has_search = false;
        let mut has_eval = false;
        let mut has_type_or_file_or_text = has_text;
        let mut i: usize = 0;
        while i < node.attributes.len()
            invariant
                i <= node.attributes.len(),
                disabled == session.disabled(),
                has_text == (node.text() is Some),
                has_search == named_before(*node, i as int, "search"@),
                has_eval == named_before(*node, i as int, "eval"@),
                has_type_or_file_or_text == value_filled_before(*node, i as int),
                diagnostic_views(diagnostics@) == value_attributes(
                    disabled,
                    start,
                    *node,
                    i as int,
                ),
            decreases node.attributes.len() - i,
        {
            let attr = &node.attributes[i];
            let name = attr.name.as_str();
            proof {
                named_step(*node, i as int, "search"@);
                named_step(*node, i as int, "eval"@);
                named_step(*node, i as int, "type"@);
                named_step(*node, i as int, "file"@);
                names_differ();
            }
            i = i + 1;
            if same_text(name, "name") || same_text(name, "model") || same_text(name, "use") {
                continue;
            }
            if same_text(name, "search") {
                has_search = true;
                if has_eval || has_type_or_file_or_text {
                    report(session, diagnostics, DiagnosticCode::OLS05027, no_args(), &attr.range);
                }
            } else if same_text(name, "eval") {
                has_eval = true;
                if has_search || has_type_or_file_or_text {
                    report(session, diagnostics, DiagnosticCode::OLS05028, no_args(), &attr.range);
                }
            } else if same_text(name, "type") {
                has_type_or_file_or_text = true;
                if has_search || has_eval {
                    report(session, diagnostics, DiagnosticCode::OLS05029, no_args(), &attr.range);
                    if !is_disabled(session, DiagnosticCode::OLS05029) {
                        continue;
                    }
                }
                if !node.contains_attribute("file") && !has_text {
                    report(session, diagnostics, DiagnosticCode::OLS05036, no_args(), &attr.range);
                }
            } else if same_text(name, "file") {
                has_type_or_file_or_text = true;
                if has_text {
                    report(session, diagnostics, DiagnosticCode::OLS05030, no_args(), &attr.range);
                    if !is_disabled(session, DiagnosticCode::OLS05030) {
                        continue;
                    }
                }
                if has_search || has_eval {
                    report(session, diagnostics, DiagnosticCode::OLS05031, no_args(), &attr.range);
                }
            } else {
                report(session, diagnostics, DiagnosticCode::OLS05032, one_arg(name), &attr.range);
            }
        }
        if !has_search && !has_eval && !has_type_or_file_or_text {
            report(session, diagnostics, DiagnosticCode::OLS05037, no_args(), &node.range);
        }
        true
    }
}

impl XmlArchBuilder {
    /// Applies the rules for a `<function>`; returns whether the node is one.
    fn load_function(
        &self,
        session: &SessionInfo,
        node: &XmlNode,
        diagnostics: &mut Vec<Diagnostic>,
    ) -> (r: bool)
        ensures
            r == (node.tag_name() == "function"@),
            diagnostic_views(final(diagnostics)@) == if r {
                function_rules(session.disabled(), diagnostic_views(old(diagnostics)@), *node)
            } else {
                diagnostic_views(old(diagnostics)@)
            },
        decreases node,
    {
        if !node.is_tag("function") {
            return false;
        }
        let ghost start = diagnostic_views(diagnostics@);
        let ghost disabled = session.disabled();
        if !node.contains_attribute("model") {
            report(session, diagnostics, DiagnosticCode::OLS05044, one_arg("model"), &node.range);
        }
        if !node.contains_attribute("name") {
            report(session, diagnostics, DiagnosticCode::OLS05044, one_arg("name"), &node.range);
        }
        let ghost lacking = lacks(
            disabled,
            lacks(disabled, start, *node, "model"@),
            *node,
            "name"@,
        );
        let mut has_eval = false;
        let mut i: usize = 0;
        while i < node.attributes.len()
            invariant
                i <= node.attributes.len(),
                disabled == session.disabled(),
                has_eval == named_before(*node, i as int, "eval"@),
                diagnostic_views(diagnostics@) == function_attributes(
                    disabled,
                    lacking,
                    *node,
                    i as int,
                ),
            decreases node.attributes.len() - i,
        {
            let attr = &node.attributes[i];
            let name = attr.name.as_str();
            proof {
                named_step(*node, i as int, "eval"@);
                names_differ();
            }
            i = i + 1;
            if same_text(name, "eval") {
                has_eval = true;
            } else if !(same_text(name, "model") || same_text(name, "name") || same_text(
                name,
                "uid",
            ) || same_text(name, "context")) {
                report(session, diagnostics, DiagnosticCode::OLS05046, one_arg(name), &attr.range);
            }
        }
        let ghost attributes = diagnostic_views(diagnostics@);
        let ghost children = node.children@;
        let mut has_value_or_function_child = false;
        let mut j: usize = 0;
        assert(children.take(0) =~= Seq::empty());
        while j < node.children.len()
            invariant
                j <= node.children.len(),
                disabled == session.disabled(),
                children == node.children@,
                has_value_or_function_child == has_argument(children.take(j as int)),
                diagnostic_views(diagnostics@) == function_children(
                    disabled,
                    attributes,
                    children.take(j as int),
                    has_eval,
                ),
            decreases node.children.len() - j,
        {
            let child = &node.children[j];
            proof {
                assert(children.take(j + 1).drop_last() =~= children.take(j as int));
                argument_step(children, j as int);
                tags_are_not_empty();
            }
            j = j + 1;
            if child.is_element() {
                if self.load_value(session, child, diagnostics) {
                    has_value_or_function_child = true;
                    if has_eval {
                        report(
                            session,
                            diagnostics,
                            DiagnosticCode::OLS05045,
                            no_args(),
                            &child.range,
                        );
                    }
                } else if self.load_function(session, child, diagnostics) {
                    has_value_or_function_child = true;
                    if has_eval {
                        report(
                            session,
                            diagnostics,
                            DiagnosticCode::OLS05047,
                            no_args(),
                            &child.range,
                        );
                    }
                } else {
                    report(
                        session,
                        diagnostics,
                        DiagnosticCode::OLS05048,
                        one_arg(child.get_tag_name()),
                        &child.range,
                    );
                }
            }
        }
        assert(children.take(j as int) =~= children);
        if !has_eval && !has_value_or_function_child {
            report(session, diagnostics, DiagnosticCode::OLS05038, no_args(), &node.range);
        }
        true
    }
}

impl XmlArchBuilder {
    /// Applies the rule for the groups of a `<menuitem>`.
    fn check_groups(
        &self,
        session: &SessionInfo,
        attr: &XmlAttribute,
        diagnostics: &mut Vec<Diagnostic>,
    )
        requires
            self.ready(*session),
        ensures
            self.state(*session, final(diagnostics)@) == menuitem_groups(
                self.env(*session),
                self.state(*session, old(diagnostics)@),
                *attr,
            ),
    {
        let ghost env = self.env(*session);
        let ghost state = self.state(*session, diagnostics@);
        let ghost test = |group: Seq<char>| is_missing_group(env, state.index, group);
        let groups = split_on(attr.value.as_str(), ',');
        let ghost views = texts(groups@);
        let mut missing: Vec<String> = Vec::new();
        let mut i: usize = 0;
        proof {
            reveal(Seq::filter);
            assert(views.take(0) =~= Seq::empty());
            assert(texts(missing@) =~= views.take(0).filter(test));
        }
        while i < groups.len()
            invariant
                i <= groups.len(),
                self.ready(*session),
                env == self.env(*session),
                state.index == session.sync_odoo.xml_index(),
                views == texts(groups@),
                test == (|group: Seq<char>| is_missing_group(env, state.index, group)),
                texts(missing@) == views.take(i as int).filter(test),
                self.state(*session, diagnostics@) == groups_looked_up(
                    env,
                    state,
                    views.take(i as int),
                    attr.range,
                ),
            decreases groups.len() - i,
        {
            let group = groups[i].as_str();
            proof {
                reveal(Seq::filter);
                assert(views.take(i + 1).drop_last() =~= views.take(i as int));
                assert(views.take(i + 1).last() == group@);
            }
            let found = self.get_group_ids(session, group, attr, diagnostics);
            if found.len() == 0 {
                let ghost before = texts(missing@);
                missing.push(group.to_owned());
                assert(texts(missing@) =~= before.push(group@));
            }
            i = i + 1;
        }
        assert(views.take(i as int) =~= views);
        proof {
            reveal_strlit(",");
            assert(","@ =~= seq![',']);
        }
        let names = join_with(&missing, ',', ",");
        if !names.as_str().is_empty() {
            report(
                session,
                diagnostics,
                DiagnosticCode::OLS05054,
                one_arg(names.as_str()),
                &attr.range,
            );
        }
    }

    /// Applies the rule for an attribute of a `<menuitem>`.
    fn check_menuitem_attribute(
        &self,
        session: &SessionInfo,
        node: &XmlNode,
        is_submenu: bool,
        attr: &XmlAttribute,
        diagnostics: &mut Vec<Diagnostic>,
    )
        requires
            self.ready(*session),
        ensures
            self.state(*session, final(diagnostics)@) == menuitem_attribute(
                self.env(*session),
                self.state(*session, old(diagnostics)@),
                *node,
                is_submenu,
                *attr,
            ),
    {
        let ghost env = self.env(*session);
        let ghost state = self.state(*session, diagnostics@);
        let name = attr.name.as_str();
        let nested = node.contains_attribute("parent") || is_submenu;
        if same_text(name, "id") || same_text(name, "name") || same_text(name, "active") {
            return;
        }
        if same_text(name, "sequence") {
            if !is_i32(attr.value.as_str()) {
                report(session, diagnostics, DiagnosticCode::OLS05008, no_args(), &attr.range);
            }
        } else if same_text(name, "groups") {
            self.check_groups(session, attr, diagnostics);
        } else if same_text(name, "action") {
            if nested {
                let ghost children = node.children@;
                let mut i: usize = 0;
                assert(children.take(0) =~= Seq::empty());
                while i < node.children.len()
                    invariant
                        i <= node.children.len(),
                        children == node.children@,
                        env == self.env(*session),
                        state.index == session.sync_odoo.xml_index(),
                        self.state(*session, diagnostics@) == submenus_refused(
                            env,
                            state,
                            children.take(i as int),
                        ),
                    decreases node.children.len() - i,
                {
                    let child = &node.children[i];
                    assert(children.take(i + 1).drop_last() =~= children.take(i as int));
                    if child.is_tag("menuitem") {
                        report(
                            session,
                            diagnostics,
                            DiagnosticCode::OLS05009,
                            no_args(),
                            &child.range,
                        );
                    }
                    i = i + 1;
                }
                assert(children.take(i as int) =~= children);
            }
            if !self.is_known(session, attr.value.as_str(), &attr.range, diagnostics) {
                report(
                    session,
                    diagnostics,
                    DiagnosticCode::OLS05053,
                    one_arg(attr.value.as_str()),
                    &attr.range,
                );
            }
        } else if same_text(name, "parent") {
            if is_submenu {
                report(session, diagnostics, DiagnosticCode::OLS05012, no_args(), &attr.range);
            } else if !self.is_known(session, attr.value.as_str(), &attr.range, diagnostics) {
                report(
                    session,
                    diagnostics,
                    DiagnosticCode::OLS05052,
                    one_arg(attr.value.as_str()),
                    &attr.range,
                );
            }
        } else if same_text(name, "web_icon") {
            if nested {
                report(session, diagnostics, DiagnosticCode::OLS05010, no_args(), &attr.range);
            }
        } else {
            report(session, diagnostics, DiagnosticCode::OLS05007, one_arg(name), &attr.range);
        }
    }

    /// Loads a `<menuitem>`; returns whether the node is one.
    fn load_menuitem(
        &self,
        session: &mut SessionInfo,
        node: &XmlNode,
        is_submenu: bool,
        diagnostics: &mut Vec<Diagnostic>,
    ) -> (r: bool)
        requires
            self.ready(*old(session)),
        ensures
            r == (node.tag_name() == "menuitem"@),
            !r ==> *final(session) == *old(session),
            self.ready(*final(session)),
            self.env(*final(session)) == self.env(*old(session)),
            only_xml_ids_changed(*old(session), *final(session)),
            self.state(*final(session), final(diagnostics)@) == if r {
                menuitem_loaded(
                    self.env(*old(session)),
                    self.state(*old(session), old(diagnostics)@),
                    *node,
                    is_submenu,
                )
            } else {
                self.state(*old(session), old(diagnostics)@)
            },
        decreases node,
    {
        let ghost before = *session;
        proof {
            unchanged(before);
        }
        if !node.is_tag("menuitem") {
            return false;
        }
        let ghost env = self.env(*session);
        let ghost state = self.state(*session, diagnostics@);
        let ghost attrs = node.attributes@;
        let mut found_id: Option<String> = None;
        let mut i: usize = 0;
        assert(attrs.take(0) =~= Seq::empty());
        while i < node.attributes.len()
            invariant
                i <= node.attributes.len(),
                attrs == node.attributes@,
                *session == before,
                self.ready(before),
                env == self.env(before),
                optional_text(found_id) == last_named(attrs.take(i as int), "id"@),
                self.state(before, diagnostics@) == menuitem_attributes(
                    env,
                    state,
                    *node,
                    is_submenu,
                    i as int,
                ),
            decreases node.attributes.len() - i,
        {
            let attr = &node.attributes[i];
            assert(attrs.take(i + 1).drop_last() =~= attrs.take(i as int));
            if same_text(attr.name.as_str(), "id") {
                found_id = Some(attr.value.clone());
            }
            self.check_menuitem_attribute(session, node, is_submenu, attr, diagnostics);
            i = i + 1;
        }
        assert(attrs.take(i as int) =~= attrs);
        if found_id.is_none() {
            report(session, diagnostics, DiagnosticCode::OLS05006, no_args(), &node.range);
        }
        let ghost identified = self.state(*session, diagnostics@);
        let ghost children = node.children@;
        let mut j: usize = 0;
        assert(children.take(0) =~= Seq::empty());
        while j < node.children.len()
            invariant
                j <= node.children.len(),
                children == node.children@,
                self.ready(*session),
                env == self.env(*session),
                only_xml_ids_changed(before, *session),
                self.state(*session, diagnostics@) == menuitem_children(
                    env,
                    identified,
                    children.take(j as int),
                ),
            decreases node.children.len() - j,
        {
            let child = &node.children[j];
            let ghost middle = *session;
            assert(children.take(j + 1).drop_last() =~= children.take(j as int));
            if child.is_element() {
                if child.is_tag("menuitem") {
                    self.load_menuitem(session, child, true, diagnostics);
                    proof {
                        changes_compose(before, middle, *session);
                    }
                } else {
                    report(
                        session,
                        diagnostics,
                        DiagnosticCode::OLS05011,
                        one_arg(child.get_tag_name()),
                        &child.range,
                    );
                }
            }
            j = j + 1;
        }
        assert(children.take(j as int) =~= children);
        let ghost middle = *session;
        let data = OdooData::MENUITEM(
            XmlDataMenuItem {
                file_symbol: self.xml_symbol,
                xml_id: copy_text(&found_id),
                range: copy_range(&node.range),
            },
        );
        self.on_operation_creation(session, found_id, node, data, diagnostics);
        proof {
            changes_compose(before, middle, *session);
        }
        true
    }
}

impl XmlArchBuilder {
    /// Applies the rules that the type of a field puts on what the field holds.
    fn check_field_type(
        &self,
        session: &SessionInfo,
        node: &XmlNode,
        field_type: &str,
        diagnostics: &mut Vec<Diagnostic>,
    )
        requires
            node.attribute_value("type"@) == Some(field_type@),
        ensures
            diagnostic_views(final(diagnostics)@) == field_type_rules(
                session.disabled(),
                diagnostic_views(old(diagnostics)@),
                *node,
            ),
    {
        let text = node.get_text();
        let content = match text {
            Some(text) => text,
            None => "",
        };
        if same_text(field_type, "int") {
            if !(is_i32(content) || same_text(content, "None")) {
                report(
                    session,
                    diagnostics,
                    DiagnosticCode::OLS05018,
                    one_arg(content),
                    &node.range,
                );
            }
        } else if same_text(field_type, "float") {
            if !is_float(content) {
                report(
                    session,
                    diagnostics,
                    DiagnosticCode::OLS05019,
                    one_arg(content),
                    &node.range,
                );
            }
        } else if same_text(field_type, "list") || same_text(field_type, "tuple") {
            let ghost start = diagnostic_views(diagnostics@);
            let ghost children = node.children@;
            let ghost disabled = session.disabled();
            let mut i: usize = 0;
            assert(children.take(0) =~= Seq::empty());
            while i < node.children.len()
                invariant
                    i <= node.children.len(),
                    children == node.children@,
                    disabled == session.disabled(),
                    diagnostic_views(diagnostics@) == list_children(
                        disabled,
                        start,
                        children.take(i as int),
                    ),
                decreases node.children.len() - i,
            {
                let child = &node.children[i];
                assert(children.take(i + 1).drop_last() =~= children.take(i as int));
                if !self.load_value(session, child, diagnostics) {
                    report(
                        session,
                        diagnostics,
                        DiagnosticCode::OLS05020,
                        one_arg(child.get_tag_name()),
                        &child.range,
                    );
                }
                i = i + 1;
            }
            assert(children.take(i as int) =~= children);
        } else if same_text(field_type, "base64") || same_text(field_type, "char") || same_text(
            field_type,
            "file",
        ) {
            if node.contains_attribute("file") && text.is_some() {
                report(session, diagnostics, DiagnosticCode::OLS05021, no_args(), &node.range);
            }
        }
    }

    /// Applies the rules for the attributes of a `<field>`.
    fn check_field_attributes(
        &self,
        session: &SessionInfo,
        node: &XmlNode,
        diagnostics: &mut Vec<Diagnostic>,
    )
        ensures
            diagnostic_views(final(diagnostics)@) == field_attributes(
                session.disabled(),
                diagnostic_views(old(diagnostics)@),
                *node,
                node.attributes@.len() as int,
            ),
    {
        let ghost start = diagnostic_views(diagnostics@);
        let ghost disabled = session.disabled();
        let has_text = node.get_text().is_some();
        let has_eval = node.contains_attribute("eval");
        let has_search = node.contains_attribute("search");
        let mut i: usize = 0;
        while i < node.attributes.len()
            invariant
                i <= node.attributes.len(),
                disabled == session.disabled(),
                has_text == (node.text() is Some),
                has_eval == node.has_attribute("eval"@),
                has_search == node.has_attribute("search"@),
                diagnostic_views(diagnostics@) == field_attributes(
                    disabled,
                    start,
                    *node,
                    i as int,
                ),
            decreases node.attributes.len() - i,
        {
            let attr = &node.attributes[i];
            let name = attr.name.as_str();
            i = i + 1;
            if same_text(name, "name") || same_text(name, "type") || same_text(name, "file") {
                continue;
            }
            if same_text(name, "ref") || same_text(name, "eval") || same_text(name, "search") {
                if has_text {
                    report(
                        session,
                        diagnostics,
                        DiagnosticCode::OLS05022,
                        one_arg(name),
                        &node.range,
                    );
                }
            } else if same_text(name, "model") {
                if !has_eval && !has_search {
                    report(session, diagnostics, DiagnosticCode::OLS05023, no_args(), &attr.range);
                }
            } else if same_text(name, "use") {
                if !has_search {
                    report(session, diagnostics, DiagnosticCode::OLS05024, no_args(), &attr.range);
                }
            } else {
                report(session, diagnostics, DiagnosticCode::OLS05025, one_arg(name), &attr.range);
            }
        }
    }

    /// Loads a `<field>`; returns what it declares, or nothing if the node is not a
    /// field with a name and at most one value.
    fn load_field(
        &self,
        session: &mut SessionInfo,
        node: &XmlNode,
        diagnostics: &mut Vec<Diagnostic>,
    ) -> (r: Option<OdooDataField>)
        requires
            self.ready(*old(session)),
        ensures
            r is Some == is_proper_field(*node),
            r is Some ==> r->0@ == field_of(*node),
            self.ready(*final(session)),
            self.env(*final(session)) == self.env(*old(session)),
            only_xml_ids_changed(*old(session), *final(session)),
            self.state(*final(session), final(diagnostics)@) == field_loaded(
                self.env(*old(session)),
                self.state(*old(session), old(diagnostics)@),
                *node,
            ),
        decreases node,
    {
        let ghost before = *session;
        proof {
            unchanged(before);
        }
        if !node.is_tag("field") {
            return None;
        }
        let ghost env = self.env(*session);
        let ghost state = self.state(*session, diagnostics@);
        let name_node = match node.attribute_node("name") {
            Some(attr) => attr,
            None => {
                report(session, diagnostics, DiagnosticCode::OLS05016, no_args(), &node.range);
                return None;
            },
        };
        let has_type = node.contains_attribute("type");
        let ref_key: Option<(String, std::ops::Range<usize>)> = match node.attribute_node("ref") {
            Some(attr) => Some((attr.value.clone(), copy_range(&attr.range))),
            None => None,
        };
        let has_ref = ref_key.is_some();
        let has_eval = node.contains_attribute("eval");
        let has_search = node.contains_attribute("search");
        if (has_type && (has_ref || has_eval || has_search)) || (has_ref && (has_eval
            || has_search)) || (has_eval && has_search) {
            report(session, diagnostics, DiagnosticCode::OLS05017, no_args(), &node.range);
            return None;
        }
        let mut is_xml_or_html = false;
        let mut iterable_child_node = false;
        if let Some(attr) = node.attribute_node("type") {
            let field_type = attr.value.as_str();
            self.check_field_type(session, node, field_type, diagnostics);
            iterable_child_node = same_text(field_type, "list") || same_text(field_type, "tuple");
            is_xml_or_html = same_text(field_type, "html") || same_text(field_type, "xml");
        }
        self.check_field_attributes(session, node, diagnostics);
        let free = is_xml_or_html || iterable_child_node;
        let ghost attributes = self.state(*session, diagnostics@);
        let ghost children = node.children@;
        let mut text: Option<String> = None;
        let mut text_range: Option<std::ops::Range<usize>> = None;
        let mut i: usize = 0;
        assert(children.take(0) =~= Seq::empty());
        while i < node.children.len()
            invariant
                i <= node.children.len(),
                children == node.children@,
                self.ready(*session),
                env == self.env(*session),
                only_xml_ids_changed(before, *session),
                self.state(*session, diagnostics@) == field_children(
                    env,
                    attributes,
                    children.take(i as int),
                    free,
                ),
                match last_text(children.take(i as int)) {
                    Some(last) => optional_text(text) == Some(last.0) && text_range == Some(last.1),
                    None => text is None && text_range is None,
                },
            decreases node.children.len() - i,
        {
            let child = &node.children[i];
            let ghost middle = *session;
            proof {
                assert(children.take(i + 1).drop_last() =~= children.take(i as int));
            }
            let is_record = self.load_record(session, child, diagnostics);
            proof {
                changes_compose(before, middle, *session);
            }
            if !is_record && !child.is_text() && !child.is_comment() && !free {
                report(session, diagnostics, DiagnosticCode::OLS05026, no_args(), &child.range);
            }
            if child.is_text() {
                text = Some(child.content.clone());
                text_range = Some(copy_range(&child.range));
            }
            i = i + 1;
        }
        assert(children.take(i as int) =~= children);
        Some(
            OdooDataField {
                name: name_node.value.clone(),
                range: copy_range(&node.range),
                text,
                text_range,
                ref_key,
            },
        )
    }

    /// Loads a `<record>`; returns whether the node is one.
    fn load_record(
        &self,
        session: &mut SessionInfo,
        node: &XmlNode,
        diagnostics: &mut Vec<Diagnostic>,
    ) -> (r: bool)
        requires
            self.ready(*old(session)),
        ensures
            r == (node.tag_name() == "record"@),
            !r ==> *final(session) == *old(session),
            self.ready(*final(session)),
            self.env(*final(session)) == self.env(*old(session)),
            only_xml_ids_changed(*old(session), *final(session)),
            self.state(*final(session), final(diagnostics)@) == if r {
                record_loaded(
                    self.env(*old(session)),
                    self.state(*old(session), old(diagnostics)@),
                    *node,
                )
            } else {
                self.state(*old(session), old(diagnostics)@)
            },
        decreases node,
    {
        let ghost before = *session;
        proof {
            unchanged(before);
        }
        if !node.is_tag("record") {
            return false;
        }
        let ghost env = self.env(*session);
        let ghost state = self.state(*session, diagnostics@);
        let ghost attrs = node.attributes@;
        let mut found_model = false;
        let mut found_id: Option<String> = None;
        let mut i: usize = 0;
        assert(attrs.take(0) =~= Seq::empty());
        while i < node.attributes.len()
            invariant
                i <= node.attributes.len(),
                attrs == node.attributes@,
                *session == before,
                env == self.env(before),
                found_model == named_before(*node, i as int, "model"@),
                optional_text(found_id) == last_named(attrs.take(i as int), "id"@),
                diagnostic_views(diagnostics@) == record_attributes(
                    env.disabled,
                    state.diagnostics,
                    *node,
                    i as int,
                ),
            decreases node.attributes.len() - i,
        {
            let attr = &node.attributes[i];
            let name = attr.name.as_str();
            proof {
                assert(attrs.take(i + 1).drop_last() =~= attrs.take(i as int));
                named_step(*node, i as int, "model"@);
                record_names_differ();
            }
            i = i + 1;
            if same_text(name, "id") {
                found_id = Some(attr.value.clone());
            } else if same_text(name, "model") {
                found_model = true;
            } else if !(same_text(name, "forcecreate") || same_text(name, "uid") || same_text(
                name,
                "context",
            )) {
                report(session, diagnostics, DiagnosticCode::OLS05013, one_arg(name), &attr.range);
            }
        }
        assert(attrs.take(i as int) =~= attrs);
        if !found_model {
            report(session, diagnostics, DiagnosticCode::OLS05014, no_args(), &node.range);
            return true;
        }
        proof {
            node.named_is_found("model"@);
        }
        let model = match node.attribute_node("model") {
            Some(attr) => (attr.value.clone(), copy_range(&attr.value_range)),
            None => {
                return true;
            },
        };
        let ghost attributes = self.state(*session, diagnostics@);
        let ghost children = node.children@;
        let mut fields: Vec<OdooDataField> = Vec::new();
        let mut j: usize = 0;
        proof {
            assert(children.take(0) =~= Seq::empty());
            assert(field_views(fields@) =~= Seq::empty());
        }
        while j < node.children.len()
            invariant
                j <= node.children.len(),
                children == node.children@,
                self.ready(*session),
                env == self.env(*session),
                only_xml_ids_changed(before, *session),
                field_views(fields@) == record_fields(children.take(j as int)),
                self.state(*session, diagnostics@) == record_children(
                    env,
                    attributes,
                    children.take(j as int),
                ),
            decreases node.children.len() - j,
        {
            let child = &node.children[j];
            let ghost middle = *session;
            proof {
                assert(children.take(j + 1).drop_last() =~= children.take(j as int));
                tags_are_not_empty();
            }
            if child.is_element() {
                let loaded = self.load_field(session, child, diagnostics);
                proof {
                    changes_compose(before, middle, *session);
                }
                if let Some(field) = loaded {
                    let ghost sofar = field_views(fields@);
                    fields.push(field);
                    assert(field_views(fields@) =~= sofar.push(field@));
                } else if !child.is_tag("field") {
                    report(
                        session,
                        diagnostics,
                        DiagnosticCode::OLS05015,
                        one_arg(child.get_tag_name()),
                        &child.range,
                    );
                }
            }
            j = j + 1;
        }
        assert(children.take(j as int) =~= children);
        let ghost middle = *session;
        let data = OdooData::RECORD(
            OdooDataRecord {
                file_symbol: self.xml_symbol,
                model,
                xml_id: copy_text(&found_id),
                fields,
                range: copy_range(&node.range),
            },
        );
        self.on_operation_creation(session, found_id, node, data, diagnostics);
        proof {
            changes_compose(before, middle, *session);
        }
        true
    }
}

impl XmlArchBuilder {
    /// Loads a `<template>`; returns whether the node is one.
    fn load_template(
        &self,
        session: &mut SessionInfo,
        node: &XmlNode,
        diagnostics: &mut Vec<Diagnostic>,
    ) -> (r: bool)
        requires
            self.ready(*old(session)),
        ensures
            r == (node.tag_name() == "template"@),
            !r ==> *final(session) == *old(session),
            self.ready(*final(session)),
            self.env(*final(session)) == self.env(*old(session)),
            only_xml_ids_changed(*old(session), *final(session)),
            self.state(*final(session), final(diagnostics)@) == if r {
                template_loaded(
                    self.env(*old(session)),
                    self.state(*old(session), old(diagnostics)@),
                    *node,
                )
            } else {
                self.state(*old(session), old(diagnostics)@)
            },
    {
        proof {
            unchanged(*session);
        }
        if !node.is_tag("template") {
            return false;
        }
        let found_id = attribute_text(node, "id");
        let data = OdooData::TEMPLATE(
            XmlDataTemplate {
                file_symbol: self.xml_symbol,
                xml_id: copy_text(&found_id),
                range: copy_range(&node.range),
            },
        );
        self.on_operation_creation(session, found_id, node, data, diagnostics);
        true
    }

    /// Loads a `<delete>`; returns whether the node is one.
    fn load_delete(
        &self,
        session: &mut SessionInfo,
        node: &XmlNode,
        diagnostics: &mut Vec<Diagnostic>,
    ) -> (r: bool)
        requires
            self.ready(*old(session)),
        ensures
            r == (node.tag_name() == "delete"@),
            !r ==> *final(session) == *old(session),
            self.ready(*final(session)),
            self.env(*final(session)) == self.env(*old(session)),
            only_xml_ids_changed(*old(session), *final(session)),
            self.state(*final(session), final(diagnostics)@) == if r {
                delete_loaded(
                    self.env(*old(session)),
                    self.state(*old(session), old(diagnostics)@),
                    *node,
                )
            } else {
                self.state(*old(session), old(diagnostics)@)
            },
    {
        proof {
            unchanged(*session);
        }
        if !node.is_tag("delete") {
            return false;
        }
        let model: String = match node.attribute_node("model") {
            Some(attr) => attr.value.clone(),
            None => {
                report(session, diagnostics, DiagnosticCode::OLS05033, no_args(), &node.range);
                return true;
            },
        };
        let found_id = attribute_text(node, "id");
        let has_search = node.contains_attribute("search");
        if found_id.is_some() && has_search {
            report(session, diagnostics, DiagnosticCode::OLS05034, no_args(), &node.range);
        }
        if found_id.is_none() && !has_search {
            report(session, diagnostics, DiagnosticCode::OLS05035, no_args(), &node.range);
        }
        let data = OdooData::DELETE(
            XmlDataDelete {
                file_symbol: self.xml_symbol,
                xml_id: copy_text(&found_id),
                range: copy_range(&node.range),
                model,
            },
        );
        self.on_operation_creation(session, found_id, node, data, diagnostics);
        true
    }

    /// Applies the rules for a `<report>`; returns whether the node is one.
    fn load_report(
        &self,
        session: &SessionInfo,
        node: &XmlNode,
        diagnostics: &mut Vec<Diagnostic>,
    ) -> (r: bool)
        ensures
            r == (node.tag_name() == "report"@),
            diagnostic_views(final(diagnostics)@) == if r {
                report_rules(session.disabled(), diagnostic_views(old(diagnostics)@), *node)
            } else {
                diagnostic_views(old(diagnostics)@)
            },
    {
        if !node.is_tag("report") {
            return false;
        }
        if !node.contains_attribute("model") {
            report(session, diagnostics, DiagnosticCode::OLS05044, one_arg("model"), &node.range);
        }
        if !node.contains_attribute("name") {
            report(session, diagnostics, DiagnosticCode::OLS05044, one_arg("name"), &node.range);
        }
        if !node.contains_attribute("string") {
            report(session, diagnostics, DiagnosticCode::OLS05044, one_arg("string"), &node.range);
        }
        true
    }

    /// Applies the rules for the attributes of a root.
    fn check_root_attributes(
        &self,
        session: &SessionInfo,
        node: &XmlNode,
        diagnostics: &mut Vec<Diagnostic>,
    )
        ensures
            diagnostic_views(final(diagnostics)@) == root_attributes(
                session.disabled(),
                diagnostic_views(old(diagnostics)@),
                *node,
                node.attributes@.len() as int,
            ),
    {
        let ghost start = diagnostic_views(diagnostics@);
        let ghost disabled = session.disabled();
        let mut i: usize = 0;
        while i < node.attributes.len()
            invariant
                i <= node.attributes.len(),
                disabled == session.disabled(),
                diagnostic_views(diagnostics@) == root_attributes(
                    disabled,
                    start,
                    *node,
                    i as int,
                ),
            decreases node.attributes.len() - i,
        {
            let attr = &node.attributes[i];
            let name = attr.name.as_str();
            if !(same_text(name, "noupdate") || same_text(name, "auto_sequence") || same_text(
                name,
                "uid",
            ) || same_text(name, "context")) {
                report(
                    session,
                    diagnostics,
                    DiagnosticCode::OLS05004,
                    two_args(name, node.get_tag_name()),
                    &attr.range,
                );
            }
            i = i + 1;
        }
    }

    /// Loads the root of a data file and all that stands in it; returns whether the
    /// node is an `<odoo>`, `<openerp>` or `<data>`.
    pub fn load_odoo_openerp_data(
        &self,
        session: &mut SessionInfo,
        node: &XmlNode,
        diagnostics: &mut Vec<Diagnostic>,
    ) -> (r: bool)
        requires
            self.ready(*old(session)),
        ensures
            r == is_root(*node),
            !r ==> *final(session) == *old(session),
            self.ready(*final(session)),
            self.env(*final(session)) == self.env(*old(session)),
            only_xml_ids_changed(*old(session), *final(session)),
            self.state(*final(session), final(diagnostics)@) == if r {
                root_loaded(
                    self.env(*old(session)),
                    self.state(*old(session), old(diagnostics)@),
                    *node,
                )
            } else {
                self.state(*old(session), old(diagnostics)@)
            },
        decreases node,
    {
        let ghost before = *session;
        proof {
            unchanged(before);
        }
        if !(node.is_tag("odoo") || node.is_tag("openerp") || node.is_tag("data")) {
            return false;
        }
        let ghost env = self.env(*session);
        self.check_root_attributes(session, node, diagnostics);
        let ghost attributes = self.state(*session, diagnostics@);
        let ghost children = node.children@;
        let ghost parent = node.tag_name();
        let mut i: usize = 0;
        assert(children.take(0) =~= Seq::empty());
        while i < node.children.len()
            invariant
                i <= node.children.len(),
                children == node.children@,
                parent == node.tag_name(),
                self.ready(*session),
                env == self.env(*session),
                only_xml_ids_changed(before, *session),
                self.state(*session, diagnostics@) == root_children(
                    env,
                    attributes,
                    children.take(i as int),
                    parent,
                ),
            decreases node.children.len() - i,
        {
            let child = &node.children[i];
            let ghost middle = *session;
            proof {
                assert(children.take(i + 1).drop_last() =~= children.take(i as int));
                root_names_differ();
            }
            if child.is_element() {
                let known = self.load_odoo_openerp_data(session, child, diagnostics)
                    || self.load_menuitem(session, child, false, diagnostics)
                    || self.load_record(session, child, diagnostics) || self.load_template(
                    session,
                    child,
                    diagnostics,
                ) || self.load_delete(session, child, diagnostics) || self.load_function(
                    session,
                    child,
                    diagnostics,
                ) || self.load_report(session, child, diagnostics);
                if !known {
                    report(
                        session,
                        diagnostics,
                        DiagnosticCode::OLS05005,
                        two_args(child.get_tag_name(), node.get_tag_name()),
                        &child.range,
                    );
                }
                proof {
                    assert(only_xml_ids_changed(middle, *session));
                    changes_compose(before, middle, *session);
                }
            }
            i = i + 1;
        }
        assert(children.take(i as int) =~= children);
        true
    }
}

/// Value of the first attribute called `name`, prefixes left aside.
fn attribute_text(node: &XmlNode, name: &str) -> (r: Option<String>)
    ensures
        optional_text(r) == node.attribute_value(name@),
{
    match node.attribute_node(name) {
        Some(attr) => Some(attr.value.clone()),
        None => None,
    }
}

/// One more child makes an argument present, or leaves none.
proof fn argument_step(children: Seq<XmlNode>, j: int)
    requires
        0 <= j < children.len(),
    ensures
        has_argument(children.take(j + 1)) == (has_argument(children.take(j))
            || children[j].tag_name() == "value"@ || children[j].tag_name() == "function"@),
{
    let front = children.take(j);
    let all = children.take(j + 1);
    if has_argument(all) {
        let i = choose|i: int|
            0 <= i < all.len() && {
                ||| (#[trigger] all[i]).tag_name() == "value"@
                ||| all[i].tag_name() == "function"@
            };
        if i < j {
            assert(front[i] == all[i]);
        }
    }
    if has_argument(front) {
        let i = choose|i: int|
            0 <= i < front.len() && {
                ||| (#[trigger] front[i]).tag_name() == "value"@
                ||| front[i].tag_name() == "function"@
            };
        assert(all[i] == front[i]);
    }
    assert(all[j] == children[j]);
}

/// Only elements have the names that the rules speak of.
proof fn tags_are_not_empty()
    ensures
        "value"@.len() > 0,
        "function"@.len() > 0,
        "record"@.len() > 0,
        "field"@.len() > 0,
        "menuitem"@.len() > 0,
{
    reveal_strlit("value");
    reveal_strlit("function");
    reveal_strlit("record");
    reveal_strlit("field");
    reveal_strlit("menuitem");
}

/// One more attribute makes a name present, or leaves it absent.
proof fn named_step(node: XmlNode, i: int, name: Seq<char>)
    requires
        0 <= i < node.attributes@.len(),
    ensures
        named_before(node, i + 1, name) == (named_before(node, i, name)
            || node.attributes@[i].name@ == name),
{
    if named_before(node, i + 1, name) {
        let j = choose|j: int| 0 <= j < i + 1 && (#[trigger] node.attributes@[j]).name@ == name;
        assert(j < i || j == i);
    }
    if named_before(node, i, name) {
        let j = choose|j: int| 0 <= j < i && (#[trigger] node.attributes@[j]).name@ == name;
        assert(0 <= j < i + 1);
    }
}

/// The attribute names that `<value>` tells apart.
proof fn names_differ()
    ensures
        "search"@ != "eval"@,
        "search"@ != "type"@,
        "search"@ != "file"@,
        "eval"@ != "type"@,
        "eval"@ != "file"@,
        "name"@ != "search"@,
        "name"@ != "eval"@,
        "name"@ != "type"@,
        "name"@ != "file"@,
        "model"@ != "search"@,
        "model"@ != "eval"@,
        "model"@ != "type"@,
        "model"@ != "file"@,
        "use"@ != "search"@,
        "use"@ != "eval"@,
        "use"@ != "type"@,
        "use"@ != "file"@,
{
    reveal_strlit("search");
    reveal_strlit("eval");
    reveal_strlit("type");
    reveal_strlit("file");
    reveal_strlit("name");
    reveal_strlit("model");
    reveal_strlit("use");
    assert("eval"@[0] == 'e' && "type"@[0] == 't' && "file"@[0] == 'f' && "name"@[0] == 'n');
    assert("search"@.len() == 6 && "model"@.len() == 5 && "use"@.len() == 3);
}

/// The attribute names that `<record>` tells apart.
proof fn record_names_differ()
    ensures
        "id"@ != "model"@,
        "forcecreate"@ != "model"@,
        "forcecreate"@ != "id"@,
        "uid"@ != "model"@,
        "uid"@ != "id"@,
        "context"@ != "model"@,
        "context"@ != "id"@,
{
    reveal_strlit("id");
    reveal_strlit("model");
    reveal_strlit("forcecreate");
    reveal_strlit("uid");
    reveal_strlit("context");
    assert("id"@.len() == 2 && "model"@.len() == 5 && "forcecreate"@.len() == 11 && "uid"@.len()
        == 3 && "context"@.len() == 7);
}

/// The tags that a root tells apart.
proof fn root_names_differ()
    ensures
        "menuitem"@ != "record"@,
        "menuitem"@ != "template"@,
        "menuitem"@ != "delete"@,
        "menuitem"@ != "function"@,
        "record"@ != "template"@,
        "record"@ != "delete"@,
        "record"@ != "function"@,
        "template"@ != "delete"@,
        "template"@ != "function"@,
        "delete"@ != "function"@,
        "menuitem"@ != "report"@,
        "record"@ != "report"@,
        "template"@ != "report"@,
        "delete"@ != "report"@,
        "function"@ != "report"@,
{
    reveal_strlit("menuitem");
    reveal_strlit("record");
    reveal_strlit("template");
    reveal_strlit("delete");
    reveal_strlit("function");
    reveal_strlit("report");
    assert("record"@[2] == 'c' && "report"@[2] == 'p' && "report"@[0] == 'r');
    assert("menuitem"@[0] == 'm' && "record"@[0] == 'r' && "template"@[0] == 't' && "delete"@[0]
        == 'd' && "function"@[0] == 'f');
}

} // verus!
