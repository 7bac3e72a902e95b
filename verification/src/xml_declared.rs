//! What a data file declares is found after it was loaded.
use vstd::prelude::*;

use crate::diagnostics::DiagnosticCode;
use crate::text::{occurrences, split_seq};
use crate::xml_arch_builder_rng_validation::{
    field_attributes, field_children, field_loaded, field_type_rules, function_rules, is_list_field, is_markup_field, is_proper_field, is_root, last_named, menuitem_attributes, menuitem_children,
    menuitem_loaded, named, record_attributes, record_children, record_fields, record_loaded, root_attributes, root_children, root_loaded,
};
use crate::xml_data::{DataKind, DataView};
use crate::xml_ids::{ArchEnv, ArchState, XmlIndex};
use crate::xml_laws::{delete_grows, field_grows, function_rules_only_report, grows, grows_by_register, grows_by_reports, meaning_is_kept, menuitem_grows, record_grows, registered_is_found, root_grows, template_grows};
use crate::xml_node::XmlNode;

verus! {

/// The XML ID of an element that declares data.
pub open spec fn declared_id(node: XmlNode) -> Option<Seq<char>> {
    if node.tag_name() == "record"@ || node.tag_name() == "menuitem"@ {
        last_named(node.attributes@, "id"@)
    } else {
        node.attribute_value("id"@)
    }
}

/// What an element declares; nothing if it is of another kind, or lacks the model that it needs.
pub open spec fn declaration(env: ArchEnv, node: XmlNode) -> Option<DataView> {
    let tag = node.tag_name();
    let kind = if tag == "record"@ && named(node, "model"@) {
        Some(
            DataKind::Record {
                model: node.attribute("model"@)->0.value@,
                model_range: node.attribute("model"@)->0.value_range,
                fields: record_fields(node.children@),
            },
        )
    } else if tag == "menuitem"@ {
        Some(DataKind::MenuItem)
    } else if tag == "template"@ {
        Some(DataKind::Template)
    } else if tag == "delete"@ && node.has_attribute("model"@) {
        Some(DataKind::Delete { model: node.attribute_value("model"@)->0 })
    } else {
        None
    };
    match kind {
        Some(kind) => Some(
            DataView { file_symbol: env.file, xml_id: declared_id(node), range: node.range, kind },
        ),
        None => None,
    }
}

/// Whether what an element declares can be registered: it has an ID with at most one dot, and the
/// file belongs to a module of the project.
pub open spec fn is_declared(env: ArchEnv, node: XmlNode) -> bool {
    &&& env.registers
    &&& env.module is Some
    &&& env.handles.contains_key(env.file)
    &&& declaration(env, node) is Some
    &&& declared_id(node) is Some
    &&& occurrences(declared_id(node)->0, '.') <= 1
}

/// The ID under which the file finds what was registered under `id`: the same, or its last part
/// if it names an unknown module.
pub open spec fn found_as(env: ArchEnv, id: Seq<char>) -> Seq<char> {
    let parts = split_seq(id, '.');
    if parts.len() == 1 || env.modules.contains_key(parts[0]) {
        id
    } else {
        parts.last()
    }
}

/// Whether what the element declares is found under its ID.
pub open spec fn is_found(env: ArchEnv, index: XmlIndex, node: XmlNode) -> bool {
    env.stands_for(index, found_as(env, declared_id(node)->0), declaration(env, node)->0)
}

/// Whether an element has children that are loaded with it: roots, menu items, records with a
/// model and proper fields.
pub open spec fn loads_children(node: XmlNode) -> bool {
    ||| is_root(node)
    ||| node.tag_name() == "menuitem"@
    ||| node.tag_name() == "record"@ && named(node, "model"@)
    ||| is_proper_field(node)
}

/// Whether `child` is loaded as a child of `parent`.
pub open spec fn is_loaded_in(parent: XmlNode, child: XmlNode) -> bool {
    let tag = child.tag_name();
    if is_root(parent) {
        is_root(child) || tag == "menuitem"@ || tag == "record"@ || tag == "template"@ || tag
            == "delete"@
    } else if parent.tag_name() == "menuitem"@ {
        tag == "menuitem"@
    } else if parent.tag_name() == "record"@ {
        tag == "field"@
    } else {
        tag == "record"@
    }
}

/// Whether `node` is loaded with one of the children of `parent`.
pub open spec fn loads_among(parent: XmlNode, children: Seq<XmlNode>, node: XmlNode) -> bool
    decreases children,
{
    children.len() > 0 && (loads_among(parent, children.drop_last(), node) || (is_loaded_in(
        parent,
        children.last(),
    ) && loads(children.last(), node)))
}

/// Whether `node` is loaded with `root`: it is that element, or loaded with one of its children.
pub open spec fn loads(root: XmlNode, node: XmlNode) -> bool
    decreases root,
{
    root == node || (loads_children(root) && loads_among(root, root.children@, node))
}

proof fn tags_differ()
    ensures
        "odoo"@ != "menuitem"@ && "odoo"@ != "record"@ && "odoo"@ != "template"@ && "odoo"@
            != "delete"@ && "odoo"@ != "field"@,
        "openerp"@ != "menuitem"@ && "openerp"@ != "record"@ && "openerp"@ != "template"@
            && "openerp"@ != "delete"@ && "openerp"@ != "field"@,
        "data"@ != "menuitem"@ && "data"@ != "record"@ && "data"@ != "template"@ && "data"@
            != "delete"@ && "data"@ != "field"@,
        "menuitem"@ != "record"@ && "menuitem"@ != "template"@ && "menuitem"@ != "delete"@
            && "menuitem"@ != "field"@ && "menuitem"@ != ""@,
        "record"@ != "template"@ && "record"@ != "delete"@ && "record"@ != "field"@ && "record"@
            != ""@,
        "template"@ != "delete"@ && "template"@ != "field"@ && "template"@ != ""@,
        "delete"@ != "field"@ && "delete"@ != ""@,
        "field"@ != ""@ && "odoo"@ != ""@ && "openerp"@ != ""@ && "data"@ != ""@,
        ""@ == Seq::<char>::empty(),
{
    reveal_strlit("odoo");
    reveal_strlit("openerp");
    reveal_strlit("data");
    reveal_strlit("menuitem");
    reveal_strlit("record");
    reveal_strlit("template");
    reveal_strlit("delete");
    reveal_strlit("field");
    reveal_strlit("");
    assert(""@ =~= Seq::<char>::empty());
    assert("odoo"@[0] == 'o' && "openerp"@[1] == 'p' && "data"@[1] == 'a');
    assert("menuitem"@[0] == 'm' && "record"@[0] == 'r' && "template"@[0] == 't' && "delete"@[1]
        == 'e' && "field"@[0] == 'f');
    assert("data"@.len() == 4 && "delete"@.len() == 6 && "record"@.len() == 6 && "openerp"@.len()
        == 7);
    assert("odoo"@.len() == 4 && "menuitem"@.len() == 8 && "template"@.len() == 8 && "field"@.len()
        == 5);
}

proof fn stays_found(env: ArchEnv, a: ArchState, b: ArchState, node: XmlNode)
    requires
        is_found(env, a.index, node),
        grows(env, a, b),
    ensures
        is_found(env, b.index, node),
{
    meaning_is_kept(
        env,
        a,
        b,
        found_as(env, declared_id(node)->0),
        declaration(env, node)->0,
    );
}

/// Registering what an element declares makes it found.
proof fn registered_is_found_as(env: ArchEnv, state: ArchState, node: XmlNode)
    requires
        is_declared(env, node),
    ensures
        is_found(
            env,
            state.register(
                env,
                declared_id(node),
                node.range,
                declaration(env, node)->0,
            ).index,
            node,
        ),
{
    let data = declaration(env, node)->0;
    registered_is_found(env, state, declared_id(node)->0, node.range, data);
    assert(DataView { file_symbol: env.file, ..data } == data);
}

proof fn menuitem_finds(
    env: ArchEnv,
    state: ArchState,
    root: XmlNode,
    is_submenu: bool,
    node: XmlNode,
)
    requires
        root.tag_name() == "menuitem"@,
        loads(root, node),
        is_declared(env, node),
    ensures
        is_found(env, menuitem_loaded(env, state, root, is_submenu).index, node),
    decreases root,
{
    tags_differ();
    let id = last_named(root.attributes@, "id"@);
    let attributes = menuitem_attributes(
        env,
        state,
        root,
        is_submenu,
        root.attributes@.len() as int,
    );
    let identified = if id is None {
        attributes.emit(env, DiagnosticCode::OLS05006, seq![], root.range)
    } else {
        attributes
    };
    let children = menuitem_children(env, identified, root.children@);
    let data = declaration(env, root)->0;
    let after = children.register(env, id, root.range, data);
    assert(after == menuitem_loaded(env, state, root, is_submenu));
    if root == node {
        registered_is_found_as(env, children, node);
    } else {
        menuitem_children_find(env, identified, root, root.children@, node);
        grows_by_register(env, children, id, root.range, data);
        stays_found(env, children, after, node);
    }
}

proof fn menuitem_children_find(
    env: ArchEnv,
    state: ArchState,
    parent: XmlNode,
    children: Seq<XmlNode>,
    node: XmlNode,
)
    requires
        parent.tag_name() == "menuitem"@,
        loads_among(parent, children, node),
        is_declared(env, node),
    ensures
        is_found(env, menuitem_children(env, state, children).index, node),
    decreases children,
{
    tags_differ();
    let before = menuitem_children(env, state, children.drop_last());
    let child = children.last();
    if is_loaded_in(parent, child) && loads(child, node) {
        menuitem_finds(env, before, child, true, node);
    } else {
        menuitem_children_find(env, state, parent, children.drop_last(), node);
        menuitem_grows(env, before, child, true);
        let after = menuitem_children(env, state, children);
        assert(grows(env, before, after));
        stays_found(env, before, after, node);
    }
}

proof fn record_finds(env: ArchEnv, state: ArchState, root: XmlNode, node: XmlNode)
    requires
        root.tag_name() == "record"@,
        loads(root, node),
        is_declared(env, node),
    ensures
        is_found(env, record_loaded(env, state, root).index, node),
    decreases root,
{
    tags_differ();
    let id = last_named(root.attributes@, "id"@);
    let attributes = state.with(
        record_attributes(
            env.disabled,
            state.diagnostics,
            root,
            root.attributes@.len() as int,
        ),
    );
    assert(named(root, "model"@));
    let children = record_children(env, attributes, root.children@);
    let data = declaration(env, root)->0;
    let after = children.register(env, id, root.range, data);
    assert(after == record_loaded(env, state, root));
    if root == node {
        registered_is_found_as(env, children, node);
    } else {
        record_children_find(env, attributes, root, root.children@, node);
        grows_by_register(env, children, id, root.range, data);
        stays_found(env, children, after, node);
    }
}

proof fn record_children_find(
    env: ArchEnv,
    state: ArchState,
    parent: XmlNode,
    children: Seq<XmlNode>,
    node: XmlNode,
)
    requires
        parent.tag_name() == "record"@,
        loads_among(parent, children, node),
        is_declared(env, node),
    ensures
        is_found(env, record_children(env, state, children).index, node),
    decreases children,
{
    tags_differ();
    let before = record_children(env, state, children.drop_last());
    let child = children.last();
    if is_loaded_in(parent, child) && loads(child, node) {
        field_finds(env, before, child, node);
    } else {
        record_children_find(env, state, parent, children.drop_last(), node);
        field_grows(env, before, child);
        let after = record_children(env, state, children);
        assert(grows(env, before, after));
        stays_found(env, before, after, node);
    }
}

proof fn field_finds(env: ArchEnv, state: ArchState, root: XmlNode, node: XmlNode)
    requires
        root.tag_name() == "field"@,
        loads(root, node),
        is_declared(env, node),
    ensures
        is_found(env, field_loaded(env, state, root).index, node),
    decreases root,
{
    tags_differ();
    assert(is_proper_field(root));
    let typed = field_type_rules(env.disabled, state.diagnostics, root);
    let attributes = field_attributes(
        env.disabled,
        typed,
        root,
        root.attributes@.len() as int,
    );
    field_children_find(
        env,
        state.with(attributes),
        root,
        root.children@,
        is_list_field(root) || is_markup_field(root),
        node,
    );
}

proof fn field_children_find(
    env: ArchEnv,
    state: ArchState,
    parent: XmlNode,
    children: Seq<XmlNode>,
    free: bool,
    node: XmlNode,
)
    requires
        parent.tag_name() == "field"@,
        loads_among(parent, children, node),
        is_declared(env, node),
    ensures
        is_found(env, field_children(env, state, children, free).index, node),
    decreases children,
{
    tags_differ();
    let before = field_children(env, state, children.drop_last(), free);
    let child = children.last();
    if is_loaded_in(parent, child) && loads(child, node) {
        record_finds(env, before, child, node);
    } else {
        field_children_find(env, state, parent, children.drop_last(), free, node);
        record_grows(env, before, child);
        let after = field_children(env, state, children, free);
        assert(grows(env, before, after));
        stays_found(env, before, after, node);
    }
}

proof fn root_children_find(
    env: ArchEnv,
    state: ArchState,
    parent: XmlNode,
    children: Seq<XmlNode>,
    name: Seq<char>,
    node: XmlNode,
)
    requires
        is_root(parent),
        loads_among(parent, children, node),
        is_declared(env, node),
    ensures
        is_found(env, root_children(env, state, children, name).index, node),
    decreases children,
{
    tags_differ();
    let before = root_children(env, state, children.drop_last(), name);
    let child = children.last();
    let tag = child.tag_name();
    if is_loaded_in(parent, child) && loads(child, node) {
        if is_root(child) {
            loaded_is_found(env, before, child, node);
        } else if tag == "menuitem"@ {
            menuitem_finds(env, before, child, false, node);
        } else if tag == "record"@ {
            record_finds(env, before, child, node);
        } else if tag == "template"@ {
            assert(child == node);
            registered_is_found_as(env, before, node);
        } else {
            assert(child == node);
            let id = declared_id(child);
            let checked = if id is Some && child.has_attribute("search"@) {
                before.emit(env, DiagnosticCode::OLS05034, seq![], child.range)
            } else if id is None && !child.has_attribute("search"@) {
                before.emit(env, DiagnosticCode::OLS05035, seq![], child.range)
            } else {
                before
            };
            registered_is_found_as(env, checked, node);
        }
    } else {
        root_children_find(env, state, parent, children.drop_last(), name, node);
        root_grows(env, before, child);
        menuitem_grows(env, before, child, false);
        record_grows(env, before, child);
        template_grows(env, before, child);
        delete_grows(env, before, child);
        function_rules_only_report(env.disabled, before.diagnostics, child);
        grows_by_reports(
            env,
            before,
            function_rules(env.disabled, before.diagnostics, child),
        );
        let after = root_children(env, state, children, name);
        assert(grows(env, before, after));
        stays_found(env, before, after, node);
    }
}

/// What an element of a data file declares is found under its ID once the file was loaded: whatever
/// else the file holds, for every record, menu item, template and deletion in it that has an ID with
/// at most one dot. Without a dot, or with a known module before it, the ID is found as it is
/// written; with an unknown module before the dot, it is found by its last part.
pub proof fn loaded_is_found(env: ArchEnv, state: ArchState, root: XmlNode, node: XmlNode)
    requires
        is_root(root),
        loads(root, node),
        is_declared(env, node),
    ensures
        is_found(env, root_loaded(env, state, root).index, node),
    decreases root,
{
    tags_differ();
    assert(root != node);
    let attributes = state.with(
        root_attributes(
            env.disabled,
            state.diagnostics,
            root,
            root.attributes@.len() as int,
        ),
    );
    root_children_find(env, attributes, root, root.children@, root.tag_name(), node);
}

} // verus!
