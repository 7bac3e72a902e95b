//! What holds of loading XML data files as a whole.
use vstd::prelude::*;

use crate::constants::SymbolId;
use crate::diagnostics::{DiagnosticCode, DiagnosticView, Range};
use crate::text::{occurrences, split_pieces, split_seq};
use crate::xml_arch_builder_rng_validation::{
    delete_loaded, field_attribute, field_attributes, field_children, field_loaded, field_type_rules, function_attributes, function_children, function_rules, groups_looked_up, lacks, list_children,
    menuitem_attribute, menuitem_attributes, menuitem_children, menuitem_loaded, named, record_attributes, record_children, record_loaded, report_rules, root_attributes, root_children, root_loaded, submenus_refused,
    template_loaded, value_attribute, value_attributes, value_rules,
};
use crate::xml_data::DataView;
use crate::xml_ids::{ArchEnv, ArchState, XmlIndex};
use crate::xml_node::XmlNode;

verus! {

/// Whether `b` starts with `a`.
pub open spec fn starts_with<T>(b: Seq<T>, a: Seq<T>) -> bool {
    a.len() <= b.len() && forall|i: int| 0 <= i < a.len() ==> #[trigger] b[i] == a[i]
}

/// Whether `b` is `a` with diagnostics added, none of them switched off.
pub open spec fn only_reported(
    disabled: Set<DiagnosticCode>,
    a: Seq<DiagnosticView>,
    b: Seq<DiagnosticView>,
) -> bool {
    &&& starts_with(b, a)
    &&& forall|i: int| a.len() <= i < b.len() ==> !disabled.contains((#[trigger] b[i]).code)
}

/// Whether `b` is `a` with declarations of the loaded file added.
pub open spec fn only_declared(env: ArchEnv, a: XmlIndex, b: XmlIndex) -> bool {
    &&& forall|file: SymbolId| #[trigger] starts_with(b.names[file], a.names[file])
    &&& forall|file: SymbolId| file != env.file ==> b.names[file] == #[trigger] a.names[file]
    &&& forall|file: SymbolId, key: Seq<char>| #[trigger]
        starts_with(b.data[(file, key)], a.data[(file, key)])
    &&& forall|file: SymbolId, key: Seq<char>|
        file != env.file ==> b.data[(file, key)] == #[trigger] a.data[(file, key)]
    &&& forall|file: SymbolId, key: Seq<char>, i: int|
        a.data[(file, key)].len() <= i < b.data[(file, key)].len() ==> (
        #[trigger] b.data[(file, key)][i]).file_symbol == env.file
    &&& forall|module: SymbolId, key: Seq<char>| #[trigger]
        a.locations[(module, key)].subset_of(b.locations[(module, key)])
    &&& forall|module: SymbolId, key: Seq<char>, handle: crate::handles::Handle|
        b.locations[(module, key)].contains(handle) ==> #[trigger] a.locations[(
            module,
            key,
        )].contains(handle) || handle == env.handles[env.file]
    &&& !env.registers || env.module is None ==> b == a
}

/// Whether loading can lead from `a` to `b`: diagnostics are only added, none that is
/// switched off; declarations are only added, all of them of the loaded file; and none
/// is for a file outside the project or without module.
pub open spec fn grows(env: ArchEnv, a: ArchState, b: ArchState) -> bool {
    &&& only_reported(env.disabled, a.diagnostics, b.diagnostics)
    &&& only_declared(env, a.index, b.index)
}

proof fn reported_compose(
    disabled: Set<DiagnosticCode>,
    a: Seq<DiagnosticView>,
    b: Seq<DiagnosticView>,
    c: Seq<DiagnosticView>,
)
    requires
        only_reported(disabled, a, b),
        only_reported(disabled, b, c),
    ensures
        only_reported(disabled, a, c),
{
    assert forall|i: int| 0 <= i < a.len() implies #[trigger] c[i] == a[i] by {
        assert(b[i] == a[i]);
    }
    assert forall|i: int| a.len() <= i < c.len() implies !disabled.contains(
        (#[trigger] c[i]).code,
    ) by {
        if i < b.len() {
            assert(c[i] == b[i]);
        }
    }
}

proof fn grows_compose(env: ArchEnv, a: ArchState, b: ArchState, c: ArchState)
    requires
        grows(env, a, b),
        grows(env, b, c),
    ensures
        grows(env, a, c),
{
    reported_compose(env.disabled, a.diagnostics, b.diagnostics, c.diagnostics);
    let (x, y, z) = (a.index, b.index, c.index);
    assert forall|file: SymbolId| #[trigger] starts_with(z.names[file], x.names[file]) by {
        assert(starts_with(y.names[file], x.names[file]));
        assert(starts_with(z.names[file], y.names[file]));
        assert forall|i: int| 0 <= i < x.names[file].len() implies #[trigger] z.names[file][i]
            == x.names[file][i] by {
            assert(y.names[file][i] == x.names[file][i]);
        }
    }
    assert forall|file: SymbolId| file != env.file implies z.names[file]
        == #[trigger] x.names[file] by {
        assert(y.names[file] == x.names[file]);
    }
    assert forall|file: SymbolId, key: Seq<char>| #[trigger]
        starts_with(z.data[(file, key)], x.data[(file, key)]) by {
        assert(starts_with(y.data[(file, key)], x.data[(file, key)]));
        assert(starts_with(z.data[(file, key)], y.data[(file, key)]));
        assert forall|i: int| 0 <= i < x.data[(file, key)].len() implies #[trigger] z.data[(
            file,
            key,
        )][i] == x.data[(file, key)][i] by {
            assert(y.data[(file, key)][i] == x.data[(file, key)][i]);
        }
    }
    assert forall|file: SymbolId, key: Seq<char>, i: int|
        x.data[(file, key)].len() <= i < z.data[(file, key)].len() implies (
    #[trigger] z.data[(file, key)][i]).file_symbol == env.file by {
        assert(starts_with(z.data[(file, key)], y.data[(file, key)]));
        if i < y.data[(file, key)].len() {
            assert(z.data[(file, key)][i] == y.data[(file, key)][i]);
        }
    }
    assert forall|module: SymbolId, key: Seq<char>| #[trigger]
        x.locations[(module, key)].subset_of(z.locations[(module, key)]) by {
        assert(x.locations[(module, key)].subset_of(y.locations[(module, key)]));
        assert(y.locations[(module, key)].subset_of(z.locations[(module, key)]));
    }
    assert forall|module: SymbolId, key: Seq<char>, handle: crate::handles::Handle|
        z.locations[(module, key)].contains(handle) implies #[trigger] x.locations[(
        module,
        key,
    )].contains(handle) || handle == env.handles[env.file] by {
        assert(y.locations[(module, key)].contains(handle) || handle == env.handles[env.file]);
    }
}

/// Diagnostics alone can be added.
pub proof fn grows_by_reports(env: ArchEnv, a: ArchState, diagnostics: Seq<DiagnosticView>)
    requires
        only_reported(env.disabled, a.diagnostics, diagnostics),
    ensures
        grows(env, a, a.with(diagnostics)),
{
}

/// Registering an ID only adds.
pub proof fn grows_by_register(
    env: ArchEnv,
    a: ArchState,
    id: Option<Seq<char>>,
    range: std::ops::Range<usize>,
    data: DataView,
)
    ensures
        grows(env, a, a.register(env, id, range, data)),
{
    let b = a.register(env, id, range, data);
    assert forall|file: SymbolId, key: Seq<char>, i: int|
        a.index.data[(file, key)].len() <= i < b.index.data[(file, key)].len() implies (
    #[trigger] b.index.data[(file, key)][i]).file_symbol == env.file by {}
}

/// The rules for a `<value>` only add diagnostics, none that is switched off.
pub proof fn value_rules_only_report(
    disabled: Set<DiagnosticCode>,
    found: Seq<DiagnosticView>,
    node: XmlNode,
)
    ensures
        only_reported(disabled, found, value_rules(disabled, found, node)),
{
    value_attributes_only_report(disabled, found, node, node.attributes@.len() as int);
}

proof fn value_attributes_only_report(
    disabled: Set<DiagnosticCode>,
    found: Seq<DiagnosticView>,
    node: XmlNode,
    n: int,
)
    ensures
        only_reported(disabled, found, value_attributes(disabled, found, node, n)),
    decreases n,
{
    if n > 0 {
        value_attributes_only_report(disabled, found, node, n - 1);
        let before = value_attributes(disabled, found, node, n - 1);
        assert(only_reported(
            disabled,
            before,
            value_attribute(disabled, before, node, n - 1),
        ));
        reported_compose(
            disabled,
            found,
            before,
            value_attributes(disabled, found, node, n),
        );
    }
}

proof fn function_attributes_only_report(
    disabled: Set<DiagnosticCode>,
    found: Seq<DiagnosticView>,
    node: XmlNode,
    n: int,
)
    ensures
        only_reported(disabled, found, function_attributes(disabled, found, node, n)),
    decreases n,
{
    if n > 0 {
        function_attributes_only_report(disabled, found, node, n - 1);
    }
}

proof fn function_children_only_report(
    disabled: Set<DiagnosticCode>,
    found: Seq<DiagnosticView>,
    children: Seq<XmlNode>,
    has_eval: bool,
)
    ensures
        only_reported(disabled, found, function_children(disabled, found, children, has_eval)),
    decreases children,
{
    if children.len() > 0 {
        let before = function_children(disabled, found, children.drop_last(), has_eval);
        let child = children.last();
        function_children_only_report(disabled, found, children.drop_last(), has_eval);
        value_rules_only_report(disabled, before, child);
        function_rules_only_report(disabled, before, child);
        let after = function_children(disabled, found, children, has_eval);
        if child.tag_name() == "value"@ {
            let middle = value_rules(disabled, before, child);
            assert(only_reported(disabled, middle, after) || after == before);
            if after != before {
                reported_compose(disabled, before, middle, after);
            }
        } else if child.tag_name() == "function"@ {
            let middle = function_rules(disabled, before, child);
            assert(only_reported(disabled, middle, after) || after == before);
            if after != before {
                reported_compose(disabled, before, middle, after);
            }
        }
        assert(only_reported(disabled, before, after));
        reported_compose(disabled, found, before, after);
    }
}

/// The rules for a `<function>` only add diagnostics, none that is switched off.
pub proof fn function_rules_only_report(
    disabled: Set<DiagnosticCode>,
    found: Seq<DiagnosticView>,
    node: XmlNode,
)
    ensures
        only_reported(disabled, found, function_rules(disabled, found, node)),
    decreases node,
{
    let lacking = lacks(
        disabled,
        lacks(disabled, found, node, "model"@),
        node,
        "name"@,
    );
    let n = node.attributes@.len() as int;
    let attributes = function_attributes(disabled, lacking, node, n);
    let has_eval = named(node, "eval"@);
    let children = function_children(disabled, attributes, node.children@, has_eval);
    function_attributes_only_report(disabled, lacking, node, n);
    function_children_only_report(disabled, attributes, node.children@, has_eval);
    assert(only_reported(disabled, found, lacking));
    reported_compose(disabled, found, lacking, attributes);
    reported_compose(disabled, found, attributes, children);
    let after = function_rules(disabled, found, node);
    assert(only_reported(disabled, children, after));
    reported_compose(disabled, found, children, after);
}

proof fn groups_grow(
    env: ArchEnv,
    state: ArchState,
    groups: Seq<Seq<char>>,
    range: std::ops::Range<usize>,
)
    ensures
        grows(env, state, groups_looked_up(env, state, groups, range)),
    decreases groups.len(),
{
    if groups.len() > 0 {
        let before = groups_looked_up(env, state, groups.drop_last(), range);
        groups_grow(env, state, groups.drop_last(), range);
        grows_compose(env, state, before, groups_looked_up(env, state, groups, range));
    }
}

proof fn submenus_grow(env: ArchEnv, state: ArchState, children: Seq<XmlNode>)
    ensures
        grows(env, state, submenus_refused(env, state, children)),
    decreases children.len(),
{
    if children.len() > 0 {
        let before = submenus_refused(env, state, children.drop_last());
        submenus_grow(env, state, children.drop_last());
        grows_compose(env, state, before, submenus_refused(env, state, children));
    }
}

proof fn menuitem_attributes_grow(
    env: ArchEnv,
    state: ArchState,
    node: XmlNode,
    is_submenu: bool,
    n: int,
)
    ensures
        grows(env, state, menuitem_attributes(env, state, node, is_submenu, n)),
    decreases n,
{
    if n > 0 {
        let before = menuitem_attributes(env, state, node, is_submenu, n - 1);
        let attr = node.attributes@[n - 1];
        let after = menuitem_attribute(env, before, node, is_submenu, attr);
        menuitem_attributes_grow(env, state, node, is_submenu, n - 1);
        let groups = split_seq(attr.value@, ',');
        let looked_up = groups_looked_up(env, before, groups, attr.range);
        groups_grow(env, before, groups, attr.range);
        submenus_grow(env, before, node.children@);
        let refused = submenus_refused(env, before, node.children@);
        if attr.name@ == "groups"@ && attr.name@ != "sequence"@ && attr.name@ != "id"@
            && attr.name@ != "name"@ && attr.name@ != "active"@ {
            assert(grows(env, looked_up, after));
            grows_compose(env, before, looked_up, after);
        } else {
            let placed = if attr.name@ == "action"@ && (node.has_attribute("parent"@)
                || is_submenu) {
                refused
            } else {
                before
            };
            let sought = placed.after_lookup(env, attr.value@, attr.range);
            assert(grows(env, placed, sought));
            grows_compose(env, before, placed, sought);
            assert(grows(env, before, after) || grows(env, sought, after));
            if !grows(env, before, after) {
                grows_compose(env, before, sought, after);
            }
        }
        grows_compose(env, state, before, after);
    }
}

proof fn menuitem_children_grow(env: ArchEnv, state: ArchState, children: Seq<XmlNode>)
    ensures
        grows(env, state, menuitem_children(env, state, children)),
    decreases children,
{
    if children.len() > 0 {
        let before = menuitem_children(env, state, children.drop_last());
        menuitem_children_grow(env, state, children.drop_last());
        menuitem_grows(env, before, children.last(), true);
        grows_compose(env, state, before, menuitem_children(env, state, children));
    }
}

/// Loading a `<menuitem>` only adds.
pub proof fn menuitem_grows(env: ArchEnv, state: ArchState, node: XmlNode, is_submenu: bool)
    ensures
        grows(env, state, menuitem_loaded(env, state, node, is_submenu)),
    decreases node,
{
    let id = crate::xml_arch_builder_rng_validation::last_named(node.attributes@, "id"@);
    let n = node.attributes@.len() as int;
    let attributes = menuitem_attributes(env, state, node, is_submenu, n);
    let identified = if id is None {
        attributes.emit(env, DiagnosticCode::OLS05006, seq![], node.range)
    } else {
        attributes
    };
    let children = menuitem_children(env, identified, node.children@);
    menuitem_attributes_grow(env, state, node, is_submenu, n);
    grows_compose(env, state, attributes, identified);
    menuitem_children_grow(env, identified, node.children@);
    grows_compose(env, state, identified, children);
    let data = DataView {
        file_symbol: env.file,
        xml_id: id,
        range: node.range,
        kind: crate::xml_data::DataKind::MenuItem,
    };
    grows_by_register(env, children, id, node.range, data);
    grows_compose(env, state, children, menuitem_loaded(env, state, node, is_submenu));
}

proof fn list_children_only_report(
    disabled: Set<DiagnosticCode>,
    found: Seq<DiagnosticView>,
    children: Seq<XmlNode>,
)
    ensures
        only_reported(disabled, found, list_children(disabled, found, children)),
    decreases children.len(),
{
    if children.len() > 0 {
        let before = list_children(disabled, found, children.drop_last());
        list_children_only_report(disabled, found, children.drop_last());
        value_rules_only_report(disabled, before, children.last());
        reported_compose(disabled, found, before, list_children(disabled, found, children));
    }
}

proof fn field_attributes_only_report(
    disabled: Set<DiagnosticCode>,
    found: Seq<DiagnosticView>,
    node: XmlNode,
    n: int,
)
    ensures
        only_reported(disabled, found, field_attributes(disabled, found, node, n)),
    decreases n,
{
    if n > 0 {
        let before = field_attributes(disabled, found, node, n - 1);
        field_attributes_only_report(disabled, found, node, n - 1);
        assert(only_reported(
            disabled,
            before,
            field_attribute(disabled, before, node, node.attributes@[n - 1]),
        ));
        reported_compose(disabled, found, before, field_attributes(disabled, found, node, n));
    }
}

proof fn field_children_grow(
    env: ArchEnv,
    state: ArchState,
    children: Seq<XmlNode>,
    free: bool,
)
    ensures
        grows(env, state, field_children(env, state, children, free)),
    decreases children,
{
    if children.len() > 0 {
        let before = field_children(env, state, children.drop_last(), free);
        field_children_grow(env, state, children.drop_last(), free);
        record_grows(env, before, children.last());
        grows_compose(env, state, before, field_children(env, state, children, free));
    }
}

/// Loading a `<field>` only adds.
pub proof fn field_grows(env: ArchEnv, state: ArchState, node: XmlNode)
    ensures
        grows(env, state, field_loaded(env, state, node)),
    decreases node,
{
    let typed = field_type_rules(env.disabled, state.diagnostics, node);
    list_children_only_report(env.disabled, state.diagnostics, node.children@);
    assert(only_reported(env.disabled, state.diagnostics, typed));
    let n = node.attributes@.len() as int;
    let attributes = field_attributes(env.disabled, typed, node, n);
    field_attributes_only_report(env.disabled, typed, node, n);
    reported_compose(env.disabled, state.diagnostics, typed, attributes);
    let checked = state.with(attributes);
    grows_by_reports(env, state, attributes);
    let free = crate::xml_arch_builder_rng_validation::is_list_field(node)
        || crate::xml_arch_builder_rng_validation::is_markup_field(node);
    field_children_grow(env, checked, node.children@, free);
    grows_compose(env, state, checked, field_children(env, checked, node.children@, free));
}

proof fn record_attributes_only_report(
    disabled: Set<DiagnosticCode>,
    found: Seq<DiagnosticView>,
    node: XmlNode,
    n: int,
)
    ensures
        only_reported(disabled, found, record_attributes(disabled, found, node, n)),
    decreases n,
{
    if n > 0 {
        record_attributes_only_report(disabled, found, node, n - 1);
    }
}

proof fn record_children_grow(env: ArchEnv, state: ArchState, children: Seq<XmlNode>)
    ensures
        grows(env, state, record_children(env, state, children)),
    decreases children,
{
    if children.len() > 0 {
        let before = record_children(env, state, children.drop_last());
        record_children_grow(env, state, children.drop_last());
        field_grows(env, before, children.last());
        grows_compose(env, state, before, record_children(env, state, children));
    }
}

/// Loading a `<record>` only adds; without a model it registers nothing.
pub proof fn record_grows(env: ArchEnv, state: ArchState, node: XmlNode)
    ensures
        grows(env, state, record_loaded(env, state, node)),
        !named(node, "model"@) ==> record_loaded(env, state, node).index == state.index,
    decreases node,
{
    let n = node.attributes@.len() as int;
    let found = record_attributes(env.disabled, state.diagnostics, node, n);
    record_attributes_only_report(env.disabled, state.diagnostics, node, n);
    let attributes = state.with(found);
    grows_by_reports(env, state, found);
    let after = record_loaded(env, state, node);
    if named(node, "model"@) {
        let id = crate::xml_arch_builder_rng_validation::last_named(node.attributes@, "id"@);
        let children = record_children(env, attributes, node.children@);
        record_children_grow(env, attributes, node.children@);
        grows_compose(env, state, attributes, children);
        let data = DataView {
            file_symbol: env.file,
            xml_id: id,
            range: node.range,
            kind: crate::xml_data::DataKind::Record {
                model: node.attribute("model"@)->0.value@,
                model_range: node.attribute("model"@)->0.value_range,
                fields: crate::xml_arch_builder_rng_validation::record_fields(node.children@),
            },
        };
        grows_by_register(env, children, id, node.range, data);
        grows_compose(env, state, children, after);
    } else {
        grows_compose(env, state, attributes, after);
    }
}

/// Loading a `<template>` only adds.
pub proof fn template_grows(env: ArchEnv, state: ArchState, node: XmlNode)
    ensures
        grows(env, state, template_loaded(env, state, node)),
{
    let id = node.attribute_value("id"@);
    let data = DataView {
        file_symbol: env.file,
        xml_id: id,
        range: node.range,
        kind: crate::xml_data::DataKind::Template,
    };
    grows_by_register(env, state, id, node.range, data);
}

/// Loading a `<delete>` only adds; without a model it registers nothing.
pub proof fn delete_grows(env: ArchEnv, state: ArchState, node: XmlNode)
    ensures
        grows(env, state, delete_loaded(env, state, node)),
        !node.has_attribute("model"@) ==> delete_loaded(env, state, node).index == state.index,
{
    let id = node.attribute_value("id"@);
    let data = DataView {
        file_symbol: env.file,
        xml_id: id,
        range: node.range,
        kind: crate::xml_data::DataKind::Delete { model: node.attribute_value("model"@)->0 },
    };
    let checked = if id is Some && node.has_attribute("search"@) {
        state.emit(env, DiagnosticCode::OLS05034, seq![], node.range)
    } else if id is None && !node.has_attribute("search"@) {
        state.emit(env, DiagnosticCode::OLS05035, seq![], node.range)
    } else {
        state
    };
    assert(grows(env, state, checked));
    grows_by_register(env, checked, id, node.range, data);
    grows_compose(env, state, checked, checked.register(env, id, node.range, data));
}

proof fn root_attributes_only_report(
    disabled: Set<DiagnosticCode>,
    found: Seq<DiagnosticView>,
    node: XmlNode,
    n: int,
)
    ensures
        only_reported(disabled, found, root_attributes(disabled, found, node, n)),
    decreases n,
{
    if n > 0 {
        root_attributes_only_report(disabled, found, node, n - 1);
    }
}

proof fn root_children_grow(
    env: ArchEnv,
    state: ArchState,
    children: Seq<XmlNode>,
    parent: Seq<char>,
)
    ensures
        grows(env, state, root_children(env, state, children, parent)),
    decreases children,
{
    if children.len() > 0 {
        let before = root_children(env, state, children.drop_last(), parent);
        let child = children.last();
        root_children_grow(env, state, children.drop_last(), parent);
        root_grows(env, before, child);
        menuitem_grows(env, before, child, false);
        record_grows(env, before, child);
        template_grows(env, before, child);
        delete_grows(env, before, child);
        function_rules_only_report(env.disabled, before.diagnostics, child);
        grows_by_reports(
            env,
            before,
            function_rules(env.disabled, before.diagnostics, child),
        );
        grows_by_reports(env, before, report_rules(env.disabled, before.diagnostics, child));
        grows_compose(env, state, before, root_children(env, state, children, parent));
    }
}

/// Loading a data file only adds: diagnostics come after those that were there and
/// none of them is switched off; every declaration that was there stays, in its place;
/// the new ones belong to the loaded file; and a file outside the project, or without
/// module, declares nothing.
pub proof fn root_grows(env: ArchEnv, state: ArchState, node: XmlNode)
    ensures
        grows(env, state, root_loaded(env, state, node)),
    decreases node,
{
    let n = node.attributes@.len() as int;
    let found = root_attributes(env.disabled, state.diagnostics, node, n);
    root_attributes_only_report(env.disabled, state.diagnostics, node, n);
    let attributes = state.with(found);
    grows_by_reports(env, state, found);
    root_children_grow(env, attributes, node.children@, node.tag_name());
    grows_compose(
        env,
        state,
        attributes,
        root_children(env, attributes, node.children@, node.tag_name()),
    );
}

/// What an XML ID stands for, it still stands for after more was loaded.
pub proof fn meaning_is_kept(
    env: ArchEnv,
    a: ArchState,
    b: ArchState,
    xml_id: Seq<char>,
    data: DataView,
)
    requires
        grows(env, a, b),
        env.stands_for(a.index, xml_id, data),
    ensures
        env.stands_for(b.index, xml_id, data),
{
    let parts = split_seq(xml_id, '.');
    let key = parts.last();
    let module = env.target(parts)->0;
    let (file, i) = choose|file: SymbolId, i: int|
        {
            &&& env.handles.contains_key(file)
            &&& a.index.locations[(module, key)].contains(env.handles[file])
            &&& 0 <= i < a.index.data[(file, key)].len()
            &&& #[trigger] a.index.data[(file, key)][i] == data
        };
    assert(a.index.locations[(module, key)].subset_of(b.index.locations[(module, key)]));
    assert(starts_with(b.index.data[(file, key)], a.index.data[(file, key)]));
    assert(b.index.data[(file, key)][i] == data);
}

/// What was registered under an ID is found under that ID, if the ID names no module
/// or a known one. An ID that names an unknown module is registered for the file's
/// own module and found there under its last part.
pub proof fn registered_is_found(
    env: ArchEnv,
    state: ArchState,
    id: Seq<char>,
    range: std::ops::Range<usize>,
    data: DataView,
)
    requires
        env.registers,
        env.module is Some,
        env.handles.contains_key(env.file),
        occurrences(id, '.') <= 1,
    ensures
        ({
            let after = state.register(env, Some(id), range, data).index;
            let stored = DataView { file_symbol: env.file, ..data };
            let parts = split_seq(id, '.');
            if parts.len() == 1 || env.modules.contains_key(parts[0]) {
                env.stands_for(after, id, stored)
            } else {
                env.stands_for(after, parts.last(), stored)
            }
        }),
{
    split_pieces(id, '.');
    let parts = split_seq(id, '.');
    let key = parts.last();
    let after = state.register(env, Some(id), range, data).index;
    let stored = DataView { file_symbol: env.file, ..data };
    let list = after.data[(env.file, key)];
    assert(list[list.len() - 1] == stored);
    assert(after.locations[(env.owner(parts), key)].contains(env.handles[env.file]));
    if parts.len() == 1 || env.modules.contains_key(parts[0]) {
        assert(env.target(parts) == Some(env.owner(parts)));
    } else {
        piece_is_whole(id, '.', parts.len() - 1);
        assert(split_seq(key, '.') == seq![key]);
        assert(env.target(seq![key]) == env.module);
        assert(after.data[(env.file, seq![key].last())][list.len() - 1] == stored);
    }
}

/// A piece of a split is not split any further.
pub proof fn piece_is_whole(s: Seq<char>, sep: char, i: int)
    requires
        0 <= i < split_seq(s, sep).len(),
    ensures
        split_seq(split_seq(s, sep)[i], sep) == seq![split_seq(s, sep)[i]],
{
    split_pieces(s, sep);
    let piece = split_seq(s, sep)[i];
    assert forall|j: int| 0 <= j < piece.len() implies piece[j] != sep by {
        assert(split_seq(s, sep)[i][j] != sep);
    }
    without_separator(piece, sep);
}

proof fn without_separator(s: Seq<char>, sep: char)
    requires
        forall|j: int| 0 <= j < s.len() ==> s[j] != sep,
    ensures
        split_seq(s, sep) == seq![s],
    decreases s.len(),
{
    if s.len() > 0 {
        without_separator(s.drop_last(), sep);
        assert(split_seq(s, sep) =~= seq![s.drop_last().push(s.last())]);
        assert(s.drop_last().push(s.last()) =~= s);
    } else {
        assert(s =~= Seq::empty());
    }
}

/// An ID with more than one dot is registered nowhere; it is reported, unless that is
/// switched off.
pub proof fn dotted_ids_are_refused(
    env: ArchEnv,
    state: ArchState,
    id: Seq<char>,
    range: std::ops::Range<usize>,
    data: DataView,
)
    requires
        env.registers,
        env.module is Some,
        occurrences(id, '.') > 1,
    ensures
        state.register(env, Some(id), range, data) == state.emit(
            env,
            DiagnosticCode::OLS05051,
            seq![id],
            range,
        ),
        state.register(env, Some(id), range, data).index == state.index,
{
    split_pieces(id, '.');
}

} // verus!
