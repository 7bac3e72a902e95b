//! Bounds on how many diagnostics an element of a data file gets: nothing is reported twice.
use vstd::prelude::*;

use crate::diagnostics::{DiagnosticCode, DiagnosticView};
use crate::text::split_seq;
use crate::xml_arch_builder_rng_validation::{delete_loaded, field_attributes, field_children, field_loaded, field_type_rules, function_attributes, function_children, function_rules, groups_looked_up, lacks, list_children, menuitem_attribute, menuitem_attributes, menuitem_children, menuitem_loaded, named, record_attributes, record_children, record_loaded, report_rules, root_attributes, root_children, root_loaded, submenus_refused, template_loaded, value_attributes, value_rules};
use crate::xml_ids::{ArchEnv, ArchState};
use crate::xml_node::XmlNode;

verus! {

/// Every attribute of an element gets at most one diagnostic.
pub proof fn attribute_gets_at_most_one(
    disabled: Set<DiagnosticCode>,
    found: Seq<DiagnosticView>,
    node: XmlNode,
    n: nat,
)
    ensures
        value_attributes(disabled, found, node, n as int).len() <= found.len() + n,
        function_attributes(disabled, found, node, n as int).len() <= found.len() + n,
        record_attributes(disabled, found, node, n as int).len() <= found.len() + n,
        field_attributes(disabled, found, node, n as int).len() <= found.len() + n,
        root_attributes(disabled, found, node, n as int).len() <= found.len() + n,
    decreases n,
{
    if n > 0 {
        attribute_gets_at_most_one(disabled, found, node, (n - 1) as nat);
    }
}

/// Beside what its attributes get, a value gets at most one diagnostic. So does a function that
/// holds nothing, and one more for each of the two attributes that it needs; a report gets one for
/// each of the three that it needs.
pub proof fn rules_get_little(
    disabled: Set<DiagnosticCode>,
    found: Seq<DiagnosticView>,
    node: XmlNode,
)
    ensures
        value_rules(disabled, found, node).len() <= found.len() + node.attributes@.len() + 1,
        node.children@.len() == 0 ==> function_rules(disabled, found, node).len() <= found.len()
            + node.attributes@.len() + 3,
        report_rules(disabled, found, node).len() <= found.len() + 3,
{
    let n = node.attributes@.len();
    attribute_gets_at_most_one(disabled, found, node, n);
    if node.children@.len() == 0 {
        let lacking = lacks(
            disabled,
            lacks(disabled, found, node, "model"@),
            node,
            "name"@,
        );
        assert(lacking.len() <= found.len() + 2);
        attribute_gets_at_most_one(disabled, lacking, node, n);
        let attributes = function_attributes(disabled, lacking, node, n as int);
        let has_eval = named(node, "eval"@);
        assert(function_children(disabled, attributes, node.children@, has_eval) == attributes);
    }
}

/// Beside what its attributes get, an element that holds nothing gets at most one diagnostic, a
/// `<delete>` at most two, and a root none.
pub proof fn element_gets_little(env: ArchEnv, state: ArchState, node: XmlNode)
    requires
        node.children@.len() == 0,
    ensures
        ({
            let before = state.diagnostics.len();
            let n = node.attributes@.len();
            &&& record_loaded(env, state, node).diagnostics.len() <= before + n + 1
            &&& field_loaded(env, state, node).diagnostics.len() <= before + n + 1
            &&& template_loaded(env, state, node).diagnostics.len() <= before + 1
            &&& delete_loaded(env, state, node).diagnostics.len() <= before + 2
            &&& root_loaded(env, state, node).diagnostics.len() <= before + n
        }),
{
    let n = node.attributes@.len();
    attribute_gets_at_most_one(env.disabled, state.diagnostics, node, n);
    let attributes = state.with(
        record_attributes(env.disabled, state.diagnostics, node, n as int),
    );
    assert(record_children(env, attributes, node.children@) == attributes);
    let typed = field_type_rules(
        env.disabled,
        state.diagnostics,
        node,
    );
    assert(list_children(env.disabled, state.diagnostics, node.children@) == state.diagnostics);
    assert(typed.len() <= state.diagnostics.len() + 1);
    attribute_gets_at_most_one(env.disabled, typed, node, n);
    let filled = state.with(field_attributes(env.disabled, typed, node, n as int));
    assert(field_children(env, filled, node.children@, true) == filled);
    assert(field_children(env, filled, node.children@, false) == filled);
    let rooted = state.with(root_attributes(env.disabled, state.diagnostics, node, n as int));
    assert(root_children(env, rooted, node.children@, node.tag_name()) == rooted);
}

/// An attribute of a menu item that holds nothing gets at most one diagnostic, and an action or a
/// parent one more for an ID that is none. Groups get one each for such an ID, and one for those
/// that are unknown.
pub proof fn menu_attribute_gets_little(
    env: ArchEnv,
    state: ArchState,
    node: XmlNode,
    is_submenu: bool,
    i: int,
)
    requires
        node.children@.len() == 0,
        0 <= i < node.attributes@.len(),
    ensures
        ({
            let attr = node.attributes@[i];
            let name = attr.name@;
            let before = state.diagnostics.len();
            let after = menuitem_attribute(env, state, node, is_submenu, attr).diagnostics.len();
            &&& name != "groups"@ ==> after <= before + 2
            &&& name != "groups"@ && name != "action"@ && name != "parent"@ ==> after <= before + 1
            &&& name == "groups"@ ==> after <= before + split_seq(attr.value@, ',').len() + 1
        }),
{
    let attr = node.attributes@[i];
    assert(submenus_refused(env, state, node.children@) == state);
    groups_get_at_most_one(env, state, split_seq(attr.value@, ','), attr.range);
}

/// Every group that is looked up gets at most one diagnostic.
pub proof fn groups_get_at_most_one(
    env: ArchEnv,
    state: ArchState,
    groups: Seq<Seq<char>>,
    range: std::ops::Range<usize>,
)
    ensures
        groups_looked_up(env, state, groups, range).diagnostics.len() <= state.diagnostics.len()
            + groups.len(),
    decreases groups.len(),
{
    if groups.len() > 0 {
        groups_get_at_most_one(env, state, groups.drop_last(), range);
    }
}

/// Every child of a menu item that may hold none gets at most one diagnostic for that.
pub proof fn submenu_is_refused_once(env: ArchEnv, state: ArchState, children: Seq<XmlNode>)
    ensures
        submenus_refused(env, state, children).diagnostics.len() <= state.diagnostics.len()
            + children.len(),
    decreases children.len(),
{
    if children.len() > 0 {
        submenu_is_refused_once(env, state, children.drop_last());
    }
}

/// A menu item without attributes that holds nothing gets at most one diagnostic.
pub proof fn bare_menu_gets_at_most_one(
    env: ArchEnv,
    state: ArchState,
    node: XmlNode,
    is_submenu: bool,
)
    requires
        node.attributes@.len() == 0,
        node.children@.len() == 0,
    ensures
        menuitem_loaded(env, state, node, is_submenu).diagnostics.len() <= state.diagnostics.len()
            + 1,
{
    assert(menuitem_attributes(env, state, node, is_submenu, 0) == state);
    let identified = state.emit(env, DiagnosticCode::OLS05006, seq![], node.range);
    assert(menuitem_children(env, identified, node.children@) == identified);
    assert(menuitem_children(env, state, node.children@) == state);
}

/// A child that has no place where it stands gets at most one diagnostic.
pub proof fn stray_child_gets_at_most_one(
    env: ArchEnv,
    state: ArchState,
    children: Seq<XmlNode>,
    tag: Seq<char>,
    free: bool,
)
    requires
        children.len() == 1,
    ensures
        ({
            let before = state.diagnostics.len();
            let child = children[0].tag_name();
            &&& child != "menuitem"@ ==> menuitem_children(env, state, children).diagnostics.len()
                <= before + 1
            &&& child != "field"@ ==> record_children(env, state, children).diagnostics.len()
                <= before + 1
            &&& child != "record"@ ==> field_children(
                env,
                state,
                children,
                free,
            ).diagnostics.len() <= before + 1
            &&& child != "value"@ ==> list_children(env.disabled, state.diagnostics, children).len()
                <= before + 1
            &&& child != "value"@ && child != "function"@ ==> function_children(
                env.disabled,
                state.diagnostics,
                children,
                free,
            ).len() <= before + 1
            &&& child != "odoo"@ && child != "openerp"@ && child != "data"@ && child != "menuitem"@
                && child != "record"@ && child != "template"@ && child != "delete"@ && child
                != "function"@ && child != "report"@ ==> root_children(
                env,
                state,
                children,
                tag,
            ).diagnostics.len() <= before + 1
        }),
{
    let none = children.drop_last();
    assert(none =~= Seq::empty());
    assert(children.last() == children[0]);
    assert(menuitem_children(env, state, none) == state);
    assert(record_children(env, state, none) == state);
    assert(field_children(env, state, none, free) == state);
    assert(list_children(env.disabled, state.diagnostics, none) == state.diagnostics);
    assert(function_children(env.disabled, state.diagnostics, none, free) == state.diagnostics);
    assert(root_children(env, state, none, tag) == state);
}

} // verus!
