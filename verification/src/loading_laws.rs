//! What loading an XML data file reports, element by element.
use vstd::prelude::*;

use crate::diagnostics::{DiagnosticCode, DiagnosticView, Position, Range};
use crate::finding_laws::points_at;
use crate::text::{is_float_seq, is_i32_seq, split_seq, strip_leading};
use crate::text_laws::{occurs, occurs_once_or_more, occurs_twice, only_at, split_in_more, split_in_two, split_of_one};
use crate::xml_arch_builder_rng_validation::{delete_loaded, field_attribute, field_attributes, field_children, field_loaded, field_type_rules, flag, function_attributes, function_children, function_rules, groups_looked_up, has_argument, lacks, last_named, list_children, menuitem_attribute, menuitem_attributes, menuitem_children, menuitem_groups, menuitem_loaded, named, named_before, record_attributes, record_children, record_loaded, report_rules, root_attributes, root_children, root_loaded, submenus_refused, template_loaded, value_attribute, value_attribute_count, value_attributes, value_rules};
use crate::xml_ids::{ArchEnv, ArchState};
use crate::xml_node::{first_attribute, NodeKind, XmlAttribute, XmlNode};

verus! {

/// What an element is loaded as.
#[derive(Clone, Copy, Debug, PartialEq, Eq, Structural)]
pub enum Role {
    Root,
    /// A menu item; inside another one or not.
    Menu(bool),
    Record,
    Field,
    Template,
    Delete,
    Report,
    Function,
    Value,
}

/// Whether a node is an element with the tag.
pub open spec fn is_tagged(node: XmlNode, tag: Seq<char>) -> bool {
    node.kind == NodeKind::Element && node.tag@ == tag
}

/// Whether one of the first `n` attributes has the name.
pub open spec fn has_before(node: XmlNode, n: int, name: Seq<char>) -> bool {
    exists|j: int| 0 <= j < n && (#[trigger] node.attributes@[j]).name@ == name
}

/// Whether an attribute has the name.
pub open spec fn carries(node: XmlNode, name: Seq<char>) -> bool {
    has_before(node, node.attributes@.len() as int, name)
}

/// Whether the first attribute of the name has the value.
pub open spec fn has_first(node: XmlNode, name: Seq<char>, value: Seq<char>) -> bool {
    exists|i: int|
        0 <= i < node.attributes@.len() && (#[trigger] node.attributes@[i]).name@ == name
            && node.attributes@[i].value@ == value && !has_before(node, i, name)
}

/// Whether the last attribute of the name has the value.
pub open spec fn has_last(node: XmlNode, name: Seq<char>, value: Seq<char>) -> bool {
    exists|i: int|
        0 <= i < node.attributes@.len() && (#[trigger] node.attributes@[i]).name@ == name
            && node.attributes@[i].value@ == value && forall|j: int|
            i < j < node.attributes@.len() ==> (#[trigger] node.attributes@[j]).name@ != name
}

/// Whether the node starts with a text.
pub open spec fn has_text(node: XmlNode) -> bool {
    node.children@.len() > 0 && node.children@[0].kind == NodeKind::Text
}

/// The text that the node starts with; nothing if it starts with none.
pub open spec fn text_of(node: XmlNode) -> Seq<char> {
    if has_text(node) {
        node.children@[0].content@
    } else {
        ""@
    }
}

/// Whether a diagnostic says this at the place.
pub open spec fn says(
    d: DiagnosticView,
    code: DiagnosticCode,
    args: Seq<Seq<char>>,
    range: std::ops::Range<usize>,
) -> bool {
    d.code == code && d.args == args && points_at(d, range)
}

/// Whether a diagnostic says this without further words.
pub open spec fn says_only(
    d: DiagnosticView,
    code: DiagnosticCode,
    range: std::ops::Range<usize>,
) -> bool {
    says(d, code, Seq::empty(), range)
}

/// Whether attribute `i` of a `<value>` is refused: what fills the value stands beside what
/// computes it, or it is unknown.
pub open spec fn value_attribute_gives(
    disabled: Set<DiagnosticCode>,
    node: XmlNode,
    i: int,
    d: DiagnosticView,
) -> bool {
    let attr = node.attributes@[i];
    let name = attr.name@;
    let filled = has_text(node) || has_before(node, i, "type"@) || has_before(node, i, "file"@);
    let computed = has_before(node, i, "search"@) || has_before(node, i, "eval"@);
    if name == "name"@ || name == "model"@ || name == "use"@ {
        false
    } else if name == "search"@ {
        (filled || has_before(node, i, "eval"@)) && says_only(
            d,
            DiagnosticCode::OLS05027,
            attr.range,
        )
    } else if name == "eval"@ {
        (filled || has_before(node, i, "search"@)) && says_only(
            d,
            DiagnosticCode::OLS05028,
            attr.range,
        )
    } else if name == "type"@ {
        ||| computed && says_only(d, DiagnosticCode::OLS05029, attr.range)
        ||| (!computed || disabled.contains(DiagnosticCode::OLS05029)) && !carries(node, "file"@)
            && !has_text(node) && says_only(d, DiagnosticCode::OLS05036, attr.range)
    } else if name == "file"@ {
        ||| has_text(node) && says_only(d, DiagnosticCode::OLS05030, attr.range)
        ||| (!has_text(node) || disabled.contains(DiagnosticCode::OLS05030)) && computed
            && says_only(d, DiagnosticCode::OLS05031, attr.range)
    } else {
        says(d, DiagnosticCode::OLS05032, seq![name], attr.range)
    }
}

/// Whether a `<value>` gives rise to a diagnostic: through an attribute, or because it holds
/// nothing.
pub open spec fn value_gives(
    disabled: Set<DiagnosticCode>,
    node: XmlNode,
    d: DiagnosticView,
) -> bool {
    ||| exists|i: int|
        0 <= i < node.attributes@.len() && #[trigger] value_attribute_gives(disabled, node, i, d)
    ||| !has_text(node) && !carries(node, "type"@) && !carries(node, "file"@) && !carries(node, "search"@)
        && !carries(node, "eval"@) && says_only(d, DiagnosticCode::OLS05037, node.range)
}

/// Whether a `<function>` gives rise to a diagnostic: it lacks its model or its name, an
/// attribute is unknown, or its arguments come both from `eval` and from children, or from
/// neither.
pub open spec fn function_gives(node: XmlNode, d: DiagnosticView) -> bool {
    ||| !carries(node, "model"@) && says(d, DiagnosticCode::OLS05044, seq!["model"@], node.range)
    ||| !carries(node, "name"@) && says(d, DiagnosticCode::OLS05044, seq!["name"@], node.range)
    ||| exists|i: int|
        0 <= i < node.attributes@.len() && {
            let attr = #[trigger] node.attributes@[i];
            let name = attr.name@;
            name != "model"@ && name != "name"@ && name != "uid"@ && name != "context"@ && name
                != "eval"@ && says(d, DiagnosticCode::OLS05046, seq![name], attr.range)
        }
    ||| exists|i: int|
        0 <= i < node.children@.len() && #[trigger] argument_gives(
            carries(node, "eval"@),
            node.children@[i],
            d,
        )
    ||| !carries(node, "eval"@) && !(exists|i: int|
        0 <= i < node.children@.len() && #[trigger] is_argument(node.children@[i])) && says_only(
        d,
        DiagnosticCode::OLS05038,
        node.range,
    )
}

/// Whether a node is an argument of a function.
pub open spec fn is_argument(node: XmlNode) -> bool {
    is_tagged(node, "value"@) || is_tagged(node, "function"@)
}

/// Whether a child of a `<function>` gives rise to a diagnostic by standing there.
pub open spec fn argument_gives(has_eval: bool, child: XmlNode, d: DiagnosticView) -> bool {
    child.kind == NodeKind::Element && if is_tagged(child, "value"@) {
        has_eval && says_only(d, DiagnosticCode::OLS05045, child.range)
    } else if is_tagged(child, "function"@) {
        has_eval && says_only(d, DiagnosticCode::OLS05047, child.range)
    } else {
        says(d, DiagnosticCode::OLS05048, seq![child.tag@], child.range)
    }
}

/// Whether an XML ID that is looked up gives rise to a diagnostic: it has more than one dot.
pub open spec fn lookup_gives(
    id: Seq<char>,
    range: std::ops::Range<usize>,
    d: DiagnosticView,
) -> bool {
    occurs_twice(id, '.') && says(d, DiagnosticCode::OLS05051, seq![id], range)
}

/// Whether an attribute of a `<menuitem>` gives rise to a diagnostic, whatever is declared: it is
/// unknown, its value is malformed, or it does not fit the item's place.
pub open spec fn menu_attribute_gives(
    node: XmlNode,
    is_submenu: bool,
    attr: XmlAttribute,
    d: DiagnosticView,
) -> bool {
    let name = attr.name@;
    let nested = is_submenu || carries(node, "parent"@);
    if name == "id"@ || name == "name"@ || name == "active"@ {
        false
    } else if name == "sequence"@ {
        !is_i32_seq(attr.value@) && says_only(d, DiagnosticCode::OLS05008, attr.range)
    } else if name == "groups"@ {
        exists|k: int|
            0 <= k < split_seq(attr.value@, ',').len() && lookup_gives(
                strip_leading(#[trigger] split_seq(attr.value@, ',')[k], '-'),
                attr.range,
                d,
            )
    } else if name == "action"@ {
        ||| nested && exists|k: int|
            0 <= k < node.children@.len() && is_tagged(#[trigger] node.children@[k], "menuitem"@)
                && says_only(d, DiagnosticCode::OLS05009, node.children@[k].range)
        ||| lookup_gives(attr.value@, attr.range, d)
    } else if name == "parent"@ {
        if is_submenu {
            says_only(d, DiagnosticCode::OLS05012, attr.range)
        } else {
            lookup_gives(attr.value@, attr.range, d)
        }
    } else if name == "web_icon"@ {
        nested && says_only(d, DiagnosticCode::OLS05010, attr.range)
    } else {
        says(d, DiagnosticCode::OLS05007, seq![name], attr.range)
    }
}

/// Whether registering an ID gives rise to a diagnostic: it has more than one dot.
pub open spec fn id_gives(env: ArchEnv, id: Seq<char>, node: XmlNode, d: DiagnosticView) -> bool {
    env.registers && env.module is Some && lookup_gives(id, node.range, d)
}

/// Whether a `<menuitem>` gives rise to a diagnostic, whatever is declared.
pub open spec fn menu_gives(
    env: ArchEnv,
    node: XmlNode,
    is_submenu: bool,
    d: DiagnosticView,
) -> bool {
    ||| exists|i: int|
        0 <= i < node.attributes@.len() && menu_attribute_gives(
            node,
            is_submenu,
            #[trigger] node.attributes@[i],
            d,
        )
    ||| !carries(node, "id"@) && says_only(d, DiagnosticCode::OLS05006, node.range)
    ||| exists|i: int|
        0 <= i < node.children@.len() && {
            let child = #[trigger] node.children@[i];
            child.kind == NodeKind::Element && child.tag@ != "menuitem"@ && says(
                d,
                DiagnosticCode::OLS05011,
                seq![child.tag@],
                child.range,
            )
        }
    ||| exists|id: Seq<char>| #[trigger] has_last(node, "id"@, id) && id_gives(env, id, node, d)
}

/// Whether a `<record>` gives rise to a diagnostic: an attribute is unknown, it lacks its model,
/// or, if it has one, it holds an element that is no field.
pub open spec fn record_gives(env: ArchEnv, node: XmlNode, d: DiagnosticView) -> bool {
    ||| exists|i: int|
        0 <= i < node.attributes@.len() && {
            let attr = #[trigger] node.attributes@[i];
            let name = attr.name@;
            name != "id"@ && name != "forcecreate"@ && name != "model"@ && name != "uid"@ && name
                != "context"@ && says(d, DiagnosticCode::OLS05013, seq![name], attr.range)
        }
    ||| !carries(node, "model"@) && says_only(d, DiagnosticCode::OLS05014, node.range)
    ||| carries(node, "model"@) && exists|i: int|
        0 <= i < node.children@.len() && {
            let child = #[trigger] node.children@[i];
            child.kind == NodeKind::Element && child.tag@ != "field"@ && says(
                d,
                DiagnosticCode::OLS05015,
                seq![child.tag@],
                child.range,
            )
        }
    ||| carries(node, "model"@) && exists|id: Seq<char>| #[trigger]
        has_last(node, "id"@, id) && id_gives(env, id, node, d)
}

/// Whether two of the attributes that give a field its value are there.
pub open spec fn has_two_values(node: XmlNode) -> bool {
    let typ = carries(node, "type"@);
    let reference = carries(node, "ref"@);
    let eval = carries(node, "eval"@);
    let search = carries(node, "search"@);
    typ && (reference || eval || search) || reference && (eval || search) || eval && search
}

/// Whether a `<field>` has a name and at most one value.
pub open spec fn is_proper(node: XmlNode) -> bool {
    carries(node, "name"@) && !has_two_values(node)
}

/// Whether the type of a field is that of a list.
pub open spec fn holds_list(node: XmlNode) -> bool {
    has_first(node, "type"@, "list"@) || has_first(node, "type"@, "tuple"@)
}

/// Whether a child may stand in a proper `<field>`: records may, texts and comments may, and
/// anything may in markup and in lists, where other rules hold.
pub open spec fn may_hold(node: XmlNode, child: XmlNode) -> bool {
    ||| is_tagged(child, "record"@)
    ||| child.kind == NodeKind::Text
    ||| child.kind == NodeKind::Comment
    ||| has_first(node, "type"@, "html"@)
    ||| has_first(node, "type"@, "xml"@)
    ||| has_first(node, "type"@, "list"@)
    ||| has_first(node, "type"@, "tuple"@)
}

/// Whether what a proper `<field>` holds does not fit its type.
pub open spec fn type_gives(node: XmlNode, d: DiagnosticView) -> bool {
    let text = text_of(node);
    ||| has_first(node, "type"@, "int"@) && !is_i32_seq(text) && text != "None"@ && says(
        d,
        DiagnosticCode::OLS05018,
        seq![text],
        node.range,
    )
    ||| has_first(node, "type"@, "float"@) && !is_float_seq(text) && says(
        d,
        DiagnosticCode::OLS05019,
        seq![text],
        node.range,
    )
    ||| holds_list(node) && exists|i: int|
        0 <= i < node.children@.len() && #[trigger] item_gives(node.children@[i], d)
    ||| (has_first(node, "type"@, "base64"@) || has_first(node, "type"@, "char"@) || has_first(
        node,
        "type"@,
        "file"@,
    )) && carries(node, "file"@) && has_text(node) && says_only(
        d,
        DiagnosticCode::OLS05021,
        node.range,
    )
}

/// Whether a child of a list gives rise to a diagnostic by standing there: it is no value.
pub open spec fn item_gives(child: XmlNode, d: DiagnosticView) -> bool {
    !is_tagged(child, "value"@) && says(
        d,
        DiagnosticCode::OLS05020,
        seq![
            if child.kind == NodeKind::Element {
                child.tag@
            } else {
                Seq::<char>::empty()
            },
        ],
        child.range,
    )
}

/// Whether an attribute of a proper `<field>` gives rise to a diagnostic: it gives a value beside
/// a text, it does not fit the others, or it is unknown.
pub open spec fn field_attribute_gives(
    node: XmlNode,
    attr: XmlAttribute,
    d: DiagnosticView,
) -> bool {
    let name = attr.name@;
    if name == "name"@ || name == "type"@ || name == "file"@ {
        false
    } else if name == "ref"@ || name == "eval"@ || name == "search"@ {
        has_text(node) && says(d, DiagnosticCode::OLS05022, seq![name], node.range)
    } else if name == "model"@ {
        !carries(node, "eval"@) && !carries(node, "search"@) && says_only(
            d,
            DiagnosticCode::OLS05023,
            attr.range,
        )
    } else if name == "use"@ {
        !carries(node, "search"@) && says_only(d, DiagnosticCode::OLS05024, attr.range)
    } else {
        says(d, DiagnosticCode::OLS05025, seq![name], attr.range)
    }
}

/// Whether a `<field>` gives rise to a diagnostic. One without name, or with two values, gives
/// rise to that diagnostic only.
pub open spec fn field_gives(node: XmlNode, d: DiagnosticView) -> bool {
    ||| !carries(node, "name"@) && says_only(d, DiagnosticCode::OLS05016, node.range)
    ||| carries(node, "name"@) && has_two_values(node) && says_only(
        d,
        DiagnosticCode::OLS05017,
        node.range,
    )
    ||| is_proper(node) && type_gives(node, d)
    ||| is_proper(node) && exists|i: int|
        0 <= i < node.attributes@.len() && field_attribute_gives(
            node,
            #[trigger] node.attributes@[i],
            d,
        )
    ||| is_proper(node) && exists|i: int|
        0 <= i < node.children@.len() && !may_hold(node, #[trigger] node.children@[i]) && says_only(
            d,
            DiagnosticCode::OLS05026,
            node.children@[i].range,
        )
}

/// Whether a `<delete>` gives rise to a diagnostic: it lacks its model, or it has both an ID and
/// a search, or neither.
pub open spec fn delete_gives(env: ArchEnv, node: XmlNode, d: DiagnosticView) -> bool {
    if !carries(node, "model"@) {
        says_only(d, DiagnosticCode::OLS05033, node.range)
    } else {
        ||| carries(node, "id"@) && carries(node, "search"@) && says_only(
            d,
            DiagnosticCode::OLS05034,
            node.range,
        )
        ||| !carries(node, "id"@) && !carries(node, "search"@) && says_only(
            d,
            DiagnosticCode::OLS05035,
            node.range,
        )
        ||| exists|id: Seq<char>| #[trigger]
            has_first(node, "id"@, id) && id_gives(env, id, node, d)
    }
}

/// Whether a `<report>` gives rise to a diagnostic: it lacks its model, its name or its string.
pub open spec fn report_gives(node: XmlNode, d: DiagnosticView) -> bool {
    ||| !carries(node, "model"@) && says(d, DiagnosticCode::OLS05044, seq!["model"@], node.range)
    ||| !carries(node, "name"@) && says(d, DiagnosticCode::OLS05044, seq!["name"@], node.range)
    ||| !carries(node, "string"@) && says(d, DiagnosticCode::OLS05044, seq!["string"@], node.range)
}

/// Whether a root gives rise to a diagnostic: an attribute is unknown, or it holds an element
/// that is loaded as nothing.
pub open spec fn root_gives(node: XmlNode, d: DiagnosticView) -> bool {
    let tag = if node.kind == NodeKind::Element {
        node.tag@
    } else {
        Seq::<char>::empty()
    };
    ||| exists|i: int|
        0 <= i < node.attributes@.len() && {
            let attr = #[trigger] node.attributes@[i];
            let name = attr.name@;
            name != "noupdate"@ && name != "auto_sequence"@ && name != "uid"@ && name
                != "context"@ && says(d, DiagnosticCode::OLS05004, seq![name, tag], attr.range)
        }
    ||| exists|i: int|
        0 <= i < node.children@.len() && {
            let child = #[trigger] node.children@[i];
            child.kind == NodeKind::Element && role_in_root(child) is None && says(
                d,
                DiagnosticCode::OLS05005,
                seq![child.tag@, tag],
                child.range,
            )
        }
}

/// What an element is loaded as below a root.
pub open spec fn role_in_root(child: XmlNode) -> Option<Role> {
    if is_tagged(child, "odoo"@) || is_tagged(child, "openerp"@) || is_tagged(child, "data"@) {
        Some(Role::Root)
    } else if is_tagged(child, "menuitem"@) {
        Some(Role::Menu(false))
    } else if is_tagged(child, "record"@) {
        Some(Role::Record)
    } else if is_tagged(child, "template"@) {
        Some(Role::Template)
    } else if is_tagged(child, "delete"@) {
        Some(Role::Delete)
    } else if is_tagged(child, "function"@) {
        Some(Role::Function)
    } else if is_tagged(child, "report"@) {
        Some(Role::Report)
    } else {
        None
    }
}

/// What a child is loaded as, if it is loaded, in an element that is loaded as `role`.
pub open spec fn role_in(node: XmlNode, role: Role, child: XmlNode) -> Option<Role> {
    match role {
        Role::Root => role_in_root(child),
        Role::Menu(_) => if is_tagged(child, "menuitem"@) {
            Some(Role::Menu(true))
        } else {
            None
        },
        Role::Record => if carries(node, "model"@) && is_tagged(child, "field"@) {
            Some(Role::Field)
        } else {
            None
        },
        Role::Field => if is_proper(node) && is_tagged(child, "record"@) {
            Some(Role::Record)
        } else if is_proper(node) && holds_list(node) && is_tagged(child, "value"@) {
            Some(Role::Value)
        } else {
            None
        },
        Role::Function => if is_tagged(child, "value"@) {
            Some(Role::Value)
        } else if is_tagged(child, "function"@) {
            Some(Role::Function)
        } else {
            None
        },
        _ => None,
    }
}

/// Whether an element itself gives rise to a diagnostic, loaded as `role`.
pub open spec fn itself_gives(env: ArchEnv, node: XmlNode, role: Role, d: DiagnosticView) -> bool {
    match role {
        Role::Root => root_gives(node, d),
        Role::Menu(is_submenu) => menu_gives(env, node, is_submenu, d),
        Role::Record => record_gives(env, node, d),
        Role::Field => field_gives(node, d),
        Role::Template => exists|id: Seq<char>| #[trigger]
            has_first(node, "id"@, id) && id_gives(env, id, node, d),
        Role::Delete => delete_gives(env, node, d),
        Role::Report => report_gives(node, d),
        Role::Function => function_gives(node, d),
        Role::Value => value_gives(env.disabled, node, d),
    }
}

/// Whether one of the children of an element, as far as they are loaded, gives rise to a
/// diagnostic, itself or through what stands in it.
pub open spec fn any_gives(
    env: ArchEnv,
    node: XmlNode,
    role: Role,
    children: Seq<XmlNode>,
    d: DiagnosticView,
) -> bool
    decreases children,
{
    children.len() > 0 && (any_gives(env, node, role, children.drop_last(), d) || (role_in(
        node,
        role,
        children.last(),
    ) is Some && gives(env, children.last(), role_in(node, role, children.last())->0, d)))
}

/// Whether an element that is loaded as `role` gives rise to a diagnostic, itself or through
/// what stands in it.
pub open spec fn gives(env: ArchEnv, node: XmlNode, role: Role, d: DiagnosticView) -> bool
    decreases node,
{
    itself_gives(env, node, role, d) || any_gives(env, node, role, node.children@, d)
}

/// Whether `b` has the diagnostic if and only if `a` has it, or it is given rise to and not
/// switched off.
pub open spec fn reports(
    disabled: Set<DiagnosticCode>,
    a: Seq<DiagnosticView>,
    b: Seq<DiagnosticView>,
    d: DiagnosticView,
    given: bool,
) -> bool {
    b.contains(d) <==> a.contains(d) || given && !disabled.contains(d.code)
}

proof fn flag_reports(
    disabled: Set<DiagnosticCode>,
    found: Seq<DiagnosticView>,
    code: DiagnosticCode,
    args: Seq<Seq<char>>,
    range: std::ops::Range<usize>,
    d: DiagnosticView,
)
    ensures
        reports(
            disabled,
            found,
            flag(disabled, found, code, args, range),
            d,
            says(d, code, args, range),
        ),
{
    let new = DiagnosticView {
        code,
        args,
        range: Range {
            start: Position { line: #[verifier::truncate] (range.start as u32), character: 0 },
            end: Position { line: #[verifier::truncate] (range.end as u32), character: 0 },
        },
    };
    if found.contains(d) {
        let i = choose|i: int| 0 <= i < found.len() && found[i] == d;
        assert(found.push(new)[i] == d);
    }
    assert(found.push(new)[found.len() as int] == new);
}

pub proof fn emit_reports(
    env: ArchEnv,
    state: ArchState,
    code: DiagnosticCode,
    args: Seq<Seq<char>>,
    range: std::ops::Range<usize>,
    d: DiagnosticView,
)
    ensures
        reports(
            env.disabled,
            state.diagnostics,
            state.emit(env, code, args, range).diagnostics,
            d,
            says(d, code, args, range),
        ),
        state.emit(env, code, args, range).index == state.index,
{
    flag_reports(env.disabled, state.diagnostics, code, args, range, d);
}

proof fn tag_is(node: XmlNode, tag: Seq<char>)
    requires
        tag.len() > 0,
    ensures
        is_tagged(node, tag) == (node.tag_name() == tag),
{
}

proof fn tags_hold_something()
    ensures
        "value"@.len() > 0,
        "function"@.len() > 0,
        "menuitem"@.len() > 0,
        "record"@.len() > 0,
        "field"@.len() > 0,
{
    reveal_strlit("value");
    reveal_strlit("function");
    reveal_strlit("menuitem");
    reveal_strlit("record");
    reveal_strlit("field");
}

/// The first attribute of a name is found by the name.
pub proof fn first_is_first(node: XmlNode, name: Seq<char>)
    ensures
        node.has_attribute(name) == carries(node, name),
        forall|value: Seq<char>| #[trigger]
            has_first(node, name, value) <==> node.attribute_value(name) == Some(value),
        node.attribute(name) matches Some(attr) ==> exists|i: int|
            0 <= i < node.attributes@.len() && #[trigger] node.attributes@[i] == attr && attr.name@
                == name && !has_before(node, i, name),
{
    first_of_rest(node.attributes@, name);
    node.named_is_found(name);
    if node.attribute(name) is Some {
        let i = choose|i: int| #[trigger] is_first_of(node.attributes@, name, i);
        assert(node.attributes@[i] == node.attribute(name)->0);
        assert(!has_before(node, i, name));
    }
    assert forall|value: Seq<char>| #[trigger]
        has_first(node, name, value) <==> node.attribute_value(name) == Some(value) by {
        if has_first(node, name, value) {
            let i = choose|i: int|
                0 <= i < node.attributes@.len() && (#[trigger] node.attributes@[i]).name@ == name
                    && node.attributes@[i].value@ == value && !has_before(node, i, name);
            assert(is_first_of(node.attributes@, name, i));
        }
    }
}

/// An attribute with none of its name before it is found by the name.
pub proof fn attribute_is_first(node: XmlNode, name: Seq<char>, i: int)
    requires
        0 <= i < node.attributes@.len(),
        node.attributes@[i].name@ == name,
        !has_before(node, i, name),
    ensures
        node.attribute(name) == Some(node.attributes@[i]),
{
    first_of_rest(node.attributes@, name);
    assert(is_first_of(node.attributes@, name, i));
}

spec fn is_first_of(attributes: Seq<XmlAttribute>, name: Seq<char>, i: int) -> bool {
    &&& 0 <= i < attributes.len()
    &&& attributes[i].name@ == name
    &&& forall|j: int| 0 <= j < i ==> (#[trigger] attributes[j]).name@ != name
}

proof fn first_of_rest(attributes: Seq<XmlAttribute>, name: Seq<char>)
    ensures
        first_attribute(attributes, name) is Some ==> exists|i: int| #[trigger]
            is_first_of(attributes, name, i),
        forall|i: int| #[trigger]
            is_first_of(attributes, name, i) ==> first_attribute(attributes, name) == Some(
                attributes[i],
            ),
    decreases attributes.len(),
{
    if attributes.len() > 0 {
        let rest = attributes.skip(1);
        first_of_rest(rest, name);
        if attributes[0].name@ == name {
            assert(is_first_of(attributes, name, 0));
            assert forall|i: int| #[trigger] is_first_of(attributes, name, i) implies i == 0 by {
                if i > 0 {
                    assert(attributes[0].name@ != name);
                }
            }
        } else {
            if first_attribute(rest, name) is Some {
                let i = choose|i: int| #[trigger] is_first_of(rest, name, i);
                assert forall|j: int| 0 <= j < i + 1 implies (#[trigger] attributes[j]).name@
                    != name by {
                    if j > 0 {
                        assert(rest[j - 1] == attributes[j]);
                    }
                }
                assert(is_first_of(attributes, name, i + 1));
            }
            assert forall|i: int| #[trigger]
                is_first_of(attributes, name, i) implies first_attribute(attributes, name) == Some(
                attributes[i],
            ) by {
                assert(i > 0);
                assert forall|j: int| 0 <= j < i - 1 implies (#[trigger] rest[j]).name@ != name by {
                    assert(attributes[j + 1].name@ != name);
                }
                assert(is_first_of(rest, name, i - 1));
            }
        }
    }
}

/// The last attribute of a name decides.
pub proof fn last_is_last(node: XmlNode, name: Seq<char>)
    ensures
        last_named(node.attributes@, name) is Some == carries(node, name),
        forall|value: Seq<char>| #[trigger]
            has_last(node, name, value) <==> last_named(node.attributes@, name) == Some(value),
{
    let attributes = node.attributes@;
    last_of_front(attributes, name);
    if last_named(attributes, name) is Some {
        let i = choose|i: int| #[trigger] is_last_of(attributes, name, i);
        assert(attributes[i].name@ == name);
    }
    if carries(node, name) {
        let j = choose|j: int| 0 <= j < attributes.len() && (#[trigger] attributes[j]).name@ == name;
        last_from(attributes, name, j);
    }
    assert forall|value: Seq<char>| #[trigger] has_last(node, name, value) <==> last_named(
        attributes,
        name,
    ) == Some(value) by {
        if has_last(node, name, value) {
            let i = choose|i: int|
                0 <= i < attributes.len() && (#[trigger] attributes[i]).name@ == name
                    && attributes[i].value@ == value && forall|j: int|
                    i < j < attributes.len() ==> (#[trigger] attributes[j]).name@ != name;
            assert(is_last_of(attributes, name, i));
        }
        if last_named(attributes, name) == Some(value) {
            let i = choose|i: int| #[trigger] is_last_of(attributes, name, i);
            assert(attributes[i].value@ == value);
        }
    }
}

spec fn is_last_of(attributes: Seq<XmlAttribute>, name: Seq<char>, i: int) -> bool {
    &&& 0 <= i < attributes.len()
    &&& attributes[i].name@ == name
    &&& forall|j: int| i < j < attributes.len() ==> (#[trigger] attributes[j]).name@ != name
}

proof fn last_from(attributes: Seq<XmlAttribute>, name: Seq<char>, j: int)
    requires
        0 <= j < attributes.len(),
        attributes[j].name@ == name,
    ensures
        exists|i: int| #[trigger] is_last_of(attributes, name, i),
    decreases attributes.len() - j,
{
    if exists|k: int| j < k < attributes.len() && (#[trigger] attributes[k]).name@ == name {
        let k = choose|k: int| j < k < attributes.len() && (#[trigger] attributes[k]).name@ == name;
        last_from(attributes, name, k);
    } else {
        assert(is_last_of(attributes, name, j));
    }
}

proof fn last_of_front(attributes: Seq<XmlAttribute>, name: Seq<char>)
    ensures
        last_named(attributes, name) is Some ==> exists|i: int| #[trigger]
            is_last_of(attributes, name, i),
        forall|i: int| #[trigger]
            is_last_of(attributes, name, i) ==> last_named(attributes, name) == Some(
                attributes[i].value@,
            ),
    decreases attributes.len(),
{
    if attributes.len() > 0 {
        let front = attributes.drop_last();
        let n = attributes.len() - 1;
        last_of_front(front, name);
        assert(attributes[n] == attributes.last());
        if attributes.last().name@ == name {
            assert(is_last_of(attributes, name, n));
            assert forall|i: int| #[trigger] is_last_of(attributes, name, i) implies i == n by {
                if i < n {
                    assert(attributes[n].name@ != name);
                }
            }
        } else {
            if last_named(front, name) is Some {
                let i = choose|i: int| #[trigger] is_last_of(front, name, i);
                assert forall|j: int| i < j < attributes.len() implies (
                #[trigger] attributes[j]).name@ != name by {
                    if j < n {
                        assert(front[j] == attributes[j]);
                    }
                }
                assert(is_last_of(attributes, name, i));
            }
            assert forall|i: int| #[trigger] is_last_of(attributes, name, i) implies last_named(
                attributes,
                name,
            ) == Some(attributes[i].value@) by {
                assert(i < n);
                assert forall|j: int| i < j < front.len() implies (#[trigger] front[j]).name@
                    != name by {
                    assert(attributes[j].name@ != name);
                }
                assert(is_last_of(front, name, i));
            }
        }
    }
}

proof fn value_attribute_reports(
    disabled: Set<DiagnosticCode>,
    found: Seq<DiagnosticView>,
    node: XmlNode,
    i: int,
    d: DiagnosticView,
)
    requires
        node.kind == NodeKind::Element,
    ensures
        reports(
            disabled,
            found,
            value_attribute(disabled, found, node, i),
            d,
            value_attribute_gives(disabled, node, i, d),
        ),
{
    let attr = node.attributes@[i];
    first_is_first(node, "file"@);
    assert(named_before(node, i, "type"@) == has_before(node, i, "type"@));
    assert(named_before(node, i, "file"@) == has_before(node, i, "file"@));
    assert(named_before(node, i, "search"@) == has_before(node, i, "search"@));
    assert(named_before(node, i, "eval"@) == has_before(node, i, "eval"@));
    flag_reports(disabled, found, DiagnosticCode::OLS05027, seq![], attr.range, d);
    flag_reports(disabled, found, DiagnosticCode::OLS05028, seq![], attr.range, d);
    flag_reports(disabled, found, DiagnosticCode::OLS05029, seq![], attr.range, d);
    flag_reports(disabled, found, DiagnosticCode::OLS05036, seq![], attr.range, d);
    flag_reports(disabled, found, DiagnosticCode::OLS05030, seq![], attr.range, d);
    flag_reports(disabled, found, DiagnosticCode::OLS05031, seq![], attr.range, d);
    flag_reports(disabled, found, DiagnosticCode::OLS05032, seq![attr.name@], attr.range, d);
}

proof fn value_attributes_report(
    disabled: Set<DiagnosticCode>,
    found: Seq<DiagnosticView>,
    node: XmlNode,
    n: int,
    d: DiagnosticView,
)
    requires
        node.kind == NodeKind::Element,
        0 <= n,
    ensures
        reports(
            disabled,
            found,
            value_attributes(disabled, found, node, n),
            d,
            exists|i: int| 0 <= i < n && #[trigger] value_attribute_gives(disabled, node, i, d),
        ),
    decreases n,
{
    if n > 0 {
        value_attributes_report(disabled, found, node, n - 1, d);
        value_attribute_reports(
            disabled,
            value_attributes(disabled, found, node, n - 1),
            node,
            n - 1,
            d,
        );
        if exists|i: int| 0 <= i < n - 1 && #[trigger] value_attribute_gives(disabled, node, i, d) {
            let i = choose|i: int|
                0 <= i < n - 1 && #[trigger] value_attribute_gives(disabled, node, i, d);
            assert(0 <= i < n);
        }
    }
}

proof fn value_reports(
    disabled: Set<DiagnosticCode>,
    found: Seq<DiagnosticView>,
    node: XmlNode,
    d: DiagnosticView,
)
    requires
        node.kind == NodeKind::Element,
    ensures
        reports(
            disabled,
            found,
            value_rules(disabled, found, node),
            d,
            value_gives(disabled, node, d),
        ),
{
    let n = node.attributes@.len() as int;
    value_attributes_report(disabled, found, node, n, d);
    flag_reports(
        disabled,
        value_attributes(disabled, found, node, n),
        DiagnosticCode::OLS05037,
        seq![],
        node.range,
        d,
    );
    assert(named_before(node, n, "type"@) == has_before(node, n, "type"@));
    assert(named_before(node, n, "file"@) == has_before(node, n, "file"@));
    assert(named_before(node, n, "search"@) == has_before(node, n, "search"@));
    assert(named_before(node, n, "eval"@) == has_before(node, n, "eval"@));
}

proof fn any_step<T>(s: Seq<T>, p: spec_fn(T) -> bool)
    requires
        s.len() > 0,
    ensures
        (exists|i: int| 0 <= i < s.len() && p(#[trigger] s[i])) <==> (exists|i: int|
            0 <= i < s.drop_last().len() && p(#[trigger] s.drop_last()[i])) || p(s.last()),
{
    let front = s.drop_last();
    assert(s[s.len() - 1] == s.last());
    if exists|i: int| 0 <= i < front.len() && p(#[trigger] front[i]) {
        let i = choose|i: int| 0 <= i < front.len() && p(#[trigger] front[i]);
        assert(p(s[i]));
    }
    if exists|i: int| 0 <= i < s.len() && p(#[trigger] s[i]) {
        let i = choose|i: int| 0 <= i < s.len() && p(#[trigger] s[i]);
        if i < front.len() {
            assert(p(front[i]));
        }
    }
}

proof fn lacks_reports(
    disabled: Set<DiagnosticCode>,
    found: Seq<DiagnosticView>,
    node: XmlNode,
    name: Seq<char>,
    d: DiagnosticView,
)
    ensures
        reports(
            disabled,
            found,
            lacks(disabled, found, node, name),
            d,
            !carries(node, name) && says(d, DiagnosticCode::OLS05044, seq![name], node.range),
        ),
{
    first_is_first(node, name);
    flag_reports(disabled, found, DiagnosticCode::OLS05044, seq![name], node.range, d);
}

/// Whether an attribute of a `<function>` is unknown, and the diagnostic says so.
spec fn function_attribute_gives(attr: XmlAttribute, d: DiagnosticView) -> bool {
    let name = attr.name@;
    name != "model"@ && name != "name"@ && name != "uid"@ && name != "context"@ && name != "eval"@
        && says(d, DiagnosticCode::OLS05046, seq![name], attr.range)
}

proof fn function_attributes_report(
    disabled: Set<DiagnosticCode>,
    found: Seq<DiagnosticView>,
    node: XmlNode,
    n: int,
    d: DiagnosticView,
)
    requires
        0 <= n <= node.attributes@.len(),
    ensures
        reports(
            disabled,
            found,
            function_attributes(disabled, found, node, n),
            d,
            exists|i: int|
                0 <= i < n && function_attribute_gives(#[trigger] node.attributes@[i], d),
        ),
    decreases n,
{
    if n > 0 {
        let attr = node.attributes@[n - 1];
        let before = function_attributes(disabled, found, node, n - 1);
        function_attributes_report(disabled, found, node, n - 1, d);
        flag_reports(disabled, before, DiagnosticCode::OLS05046, seq![attr.name@], attr.range, d);
        if exists|i: int|
            0 <= i < n - 1 && function_attribute_gives(#[trigger] node.attributes@[i], d) {
            let i = choose|i: int|
                0 <= i < n - 1 && function_attribute_gives(#[trigger] node.attributes@[i], d);
            assert(0 <= i < n);
        }
    }
}

proof fn function_children_report(
    env: ArchEnv,
    found: Seq<DiagnosticView>,
    node: XmlNode,
    children: Seq<XmlNode>,
    has_eval: bool,
    d: DiagnosticView,
)
    ensures
        reports(
            env.disabled,
            found,
            function_children(env.disabled, found, children, has_eval),
            d,
            (exists|i: int|
                0 <= i < children.len() && #[trigger] argument_gives(has_eval, children[i], d))
                || any_gives(env, node, Role::Function, children, d),
        ),
    decreases children,
{
    if children.len() > 0 {
        let front = children.drop_last();
        let child = children.last();
        let before = function_children(env.disabled, found, front, has_eval);
        function_children_report(env, found, node, front, has_eval, d);
        arguments_step(children, has_eval, d);
        tags_hold_something();
        tag_is(child, "value"@);
        tag_is(child, "function"@);
        if child.kind == NodeKind::Element {
            if child.tag_name() == "value"@ {
                value_reports(env.disabled, before, child, d);
                assert(gives(env, child, Role::Value, d) == value_gives(env.disabled, child, d)) by {
                    leaf_gives(env, child, Role::Value, child.children@, d);
                }
                flag_reports(
                    env.disabled,
                    value_rules(env.disabled, before, child),
                    DiagnosticCode::OLS05045,
                    seq![],
                    child.range,
                    d,
                );
            } else if child.tag_name() == "function"@ {
                function_reports(env, before, child, d);
                flag_reports(
                    env.disabled,
                    function_rules(env.disabled, before, child),
                    DiagnosticCode::OLS05047,
                    seq![],
                    child.range,
                    d,
                );
            } else {
                flag_reports(
                    env.disabled,
                    before,
                    DiagnosticCode::OLS05048,
                    seq![child.tag_name()],
                    child.range,
                    d,
                );
            }
        }
    }
}

proof fn arguments_step(children: Seq<XmlNode>, has_eval: bool, d: DiagnosticView)
    requires
        children.len() > 0,
    ensures
        (exists|i: int|
            0 <= i < children.len() && #[trigger] argument_gives(has_eval, children[i], d)) <==> (
        exists|i: int|
            0 <= i < children.drop_last().len() && #[trigger] argument_gives(
                has_eval,
                children.drop_last()[i],
                d,
            )) || argument_gives(has_eval, children.last(), d),
{
    let front = children.drop_last();
    assert(children[children.len() - 1] == children.last());
    if exists|i: int| 0 <= i < front.len() && #[trigger] argument_gives(has_eval, front[i], d) {
        let i = choose|i: int|
            0 <= i < front.len() && #[trigger] argument_gives(has_eval, front[i], d);
        assert(argument_gives(has_eval, children[i], d));
    }
    if exists|i: int| 0 <= i < children.len() && #[trigger] argument_gives(has_eval, children[i], d) {
        let i = choose|i: int|
            0 <= i < children.len() && #[trigger] argument_gives(has_eval, children[i], d);
        if i < front.len() {
            assert(argument_gives(has_eval, front[i], d));
        }
    }
}

/// What stands in an element that loads no children gives rise to nothing.
proof fn leaf_gives(
    env: ArchEnv,
    node: XmlNode,
    role: Role,
    children: Seq<XmlNode>,
    d: DiagnosticView,
)
    requires
        role == Role::Value || role == Role::Template || role == Role::Delete || role
            == Role::Report || (role == Role::Record && !carries(node, "model"@)) || (role
            == Role::Field && !is_proper(node)),
    ensures
        !any_gives(env, node, role, children, d),
    decreases children.len(),
{
    if children.len() > 0 {
        leaf_gives(env, node, role, children.drop_last(), d);
    }
}

pub(crate) proof fn function_reports(
    env: ArchEnv,
    found: Seq<DiagnosticView>,
    node: XmlNode,
    d: DiagnosticView,
)
    ensures
        reports(
            env.disabled,
            found,
            function_rules(env.disabled, found, node),
            d,
            gives(env, node, Role::Function, d),
        ),
    decreases node,
{
    let disabled = env.disabled;
    let n = node.attributes@.len() as int;
    let has_eval = named(node, "eval"@);
    assert(has_eval == carries(node, "eval"@));
    let first = lacks(disabled, found, node, "model"@);
    let lacking = lacks(disabled, first, node, "name"@);
    lacks_reports(disabled, found, node, "model"@, d);
    lacks_reports(disabled, first, node, "name"@, d);
    let attributes = function_attributes(disabled, lacking, node, n);
    function_attributes_report(disabled, lacking, node, n, d);
    function_children_report(env, attributes, node, node.children@, has_eval, d);
    let children = function_children(disabled, attributes, node.children@, has_eval);
    flag_reports(disabled, children, DiagnosticCode::OLS05038, seq![], node.range, d);
    assert(has_argument(node.children@) == exists|i: int|
        0 <= i < node.children@.len() && #[trigger] is_argument(node.children@[i])) by {
        tags_hold_something();
        if has_argument(node.children@) {
            let i = choose|i: int|
                0 <= i < node.children@.len() && {
                    ||| (#[trigger] node.children@[i]).tag_name() == "value"@
                    ||| node.children@[i].tag_name() == "function"@
                };
            assert(is_argument(node.children@[i]));
        }
        if exists|i: int| 0 <= i < node.children@.len() && #[trigger] is_argument(node.children@[i]) {
            let i = choose|i: int|
                0 <= i < node.children@.len() && #[trigger] is_argument(node.children@[i]);
            assert(node.children@[i].tag_name() == "value"@ || node.children@[i].tag_name()
                == "function"@);
        }
    }
    assert((exists|i: int| 0 <= i < n && function_attribute_gives(#[trigger] node.attributes@[i], d))
        <==> (exists|i: int|
        0 <= i < node.attributes@.len() && {
            let attr = #[trigger] node.attributes@[i];
            let name = attr.name@;
            name != "model"@ && name != "name"@ && name != "uid"@ && name != "context"@ && name
                != "eval"@ && says(d, DiagnosticCode::OLS05046, seq![name], attr.range)
        })) by {
        if exists|i: int| 0 <= i < n && function_attribute_gives(#[trigger] node.attributes@[i], d) {
            let i = choose|i: int|
                0 <= i < n && function_attribute_gives(#[trigger] node.attributes@[i], d);
            assert(node.attributes@[i].name@ != "model"@);
        }
    }
}

/// An ID with more than one dot is one that has more than two parts.
proof fn dots_part(id: Seq<char>)
    ensures
        split_seq(id, '.').len() > 2 <==> occurs_twice(id, '.'),
{
    occurs_once_or_more(id, '.');
    if occurs_twice(id, '.') {
        split_in_more(id, '.');
    } else if occurs(id, '.') {
        let p = choose|p: int| only_at(id, '.', p);
        split_in_two(id, '.', p);
    } else {
        split_of_one(id, '.');
    }
}

pub proof fn lookup_reports(
    env: ArchEnv,
    state: ArchState,
    id: Seq<char>,
    range: std::ops::Range<usize>,
    d: DiagnosticView,
)
    ensures
        reports(
            env.disabled,
            state.diagnostics,
            state.after_lookup(env, id, range).diagnostics,
            d,
            lookup_gives(id, range, d),
        ),
        state.after_lookup(env, id, range).index == state.index,
{
    dots_part(id);
    emit_reports(env, state, DiagnosticCode::OLS05051, seq![id], range, d);
}

proof fn register_reports(
    env: ArchEnv,
    state: ArchState,
    id: Option<Seq<char>>,
    node: XmlNode,
    data: crate::xml_data::DataView,
    d: DiagnosticView,
)
    ensures
        reports(
            env.disabled,
            state.diagnostics,
            state.register(env, id, node.range, data).diagnostics,
            d,
            id is Some && id_gives(env, id->0, node, d),
        ),
{
    if id is Some {
        dots_part(id->0);
        emit_reports(env, state, DiagnosticCode::OLS05051, seq![id->0], node.range, d);
    }
}

pub proof fn groups_report(
    env: ArchEnv,
    state: ArchState,
    groups: Seq<Seq<char>>,
    range: std::ops::Range<usize>,
    d: DiagnosticView,
)
    ensures
        reports(
            env.disabled,
            state.diagnostics,
            groups_looked_up(env, state, groups, range).diagnostics,
            d,
            exists|k: int|
                0 <= k < groups.len() && lookup_gives(
                    strip_leading(#[trigger] groups[k], '-'),
                    range,
                    d,
                ),
        ),
        groups_looked_up(env, state, groups, range).index == state.index,
    decreases groups.len(),
{
    if groups.len() > 0 {
        let front = groups.drop_last();
        groups_report(env, state, front, range, d);
        lookup_reports(
            env,
            groups_looked_up(env, state, front, range),
            strip_leading(groups.last(), '-'),
            range,
            d,
        );
        any_step(groups, |group: Seq<char>| lookup_gives(strip_leading(group, '-'), range, d));
    }
}

pub proof fn submenus_report(
    env: ArchEnv,
    state: ArchState,
    children: Seq<XmlNode>,
    d: DiagnosticView,
)
    ensures
        reports(
            env.disabled,
            state.diagnostics,
            submenus_refused(env, state, children).diagnostics,
            d,
            exists|k: int|
                0 <= k < children.len() && is_tagged(#[trigger] children[k], "menuitem"@)
                    && says_only(d, DiagnosticCode::OLS05009, children[k].range),
        ),
        submenus_refused(env, state, children).index == state.index,
    decreases children.len(),
{
    if children.len() > 0 {
        let front = children.drop_last();
        submenus_report(env, state, front, d);
        tags_hold_something();
        tag_is(children.last(), "menuitem"@);
        emit_reports(
            env,
            submenus_refused(env, state, front),
            DiagnosticCode::OLS05009,
            seq![],
            children.last().range,
            d,
        );
        any_step(
            children,
            |child: XmlNode|
                is_tagged(child, "menuitem"@) && says_only(
                    d,
                    DiagnosticCode::OLS05009,
                    child.range,
                ),
        );
    }
}

/// Whether a diagnostic tells of something that is not declared.
pub open spec fn tells_of_undeclared(d: DiagnosticView) -> bool {
    d.code == DiagnosticCode::OLS05052 || d.code == DiagnosticCode::OLS05053 || d.code
        == DiagnosticCode::OLS05054
}

proof fn menu_attribute_reports(
    env: ArchEnv,
    state: ArchState,
    node: XmlNode,
    is_submenu: bool,
    attr: XmlAttribute,
    d: DiagnosticView,
)
    requires
        !tells_of_undeclared(d),
    ensures
        reports(
            env.disabled,
            state.diagnostics,
            menuitem_attribute(env, state, node, is_submenu, attr).diagnostics,
            d,
            menu_attribute_gives(node, is_submenu, attr, d),
        ),
        menuitem_attribute(env, state, node, is_submenu, attr).index == state.index,
{
    let name = attr.name@;
    let value = attr.value@;
    first_is_first(node, "parent"@);
    let nested = node.has_attribute("parent"@) || is_submenu;
    if name == "id"@ || name == "name"@ || name == "active"@ {
    } else if name == "sequence"@ {
        emit_reports(env, state, DiagnosticCode::OLS05008, seq![], attr.range, d);
    } else if name == "groups"@ {
        let groups = split_seq(value, ',');
        groups_report(env, state, groups, attr.range, d);
        let after = groups_looked_up(env, state, groups, attr.range);
        let missing = crate::text::join_seq(
            groups.filter(
                |group: Seq<char>|
                    crate::xml_arch_builder_rng_validation::is_missing_group(
                        env,
                        state.index,
                        group,
                    ),
            ),
            ',',
        );
        emit_reports(env, after, DiagnosticCode::OLS05054, seq![missing], attr.range, d);
    } else if name == "action"@ {
        let placed = if nested {
            submenus_refused(env, state, node.children@)
        } else {
            state
        };
        submenus_report(env, state, node.children@, d);
        lookup_reports(env, placed, value, attr.range, d);
        emit_reports(
            env,
            placed.after_lookup(env, value, attr.range),
            DiagnosticCode::OLS05053,
            seq![value],
            attr.range,
            d,
        );
    } else if name == "parent"@ {
        emit_reports(env, state, DiagnosticCode::OLS05012, seq![], attr.range, d);
        lookup_reports(env, state, value, attr.range, d);
        emit_reports(
            env,
            state.after_lookup(env, value, attr.range),
            DiagnosticCode::OLS05052,
            seq![value],
            attr.range,
            d,
        );
    } else if name == "web_icon"@ {
        emit_reports(env, state, DiagnosticCode::OLS05010, seq![], attr.range, d);
    } else {
        emit_reports(env, state, DiagnosticCode::OLS05007, seq![name], attr.range, d);
    }
}

proof fn menu_attributes_report(
    env: ArchEnv,
    state: ArchState,
    node: XmlNode,
    is_submenu: bool,
    n: int,
    d: DiagnosticView,
)
    requires
        !tells_of_undeclared(d),
        0 <= n <= node.attributes@.len(),
    ensures
        reports(
            env.disabled,
            state.diagnostics,
            menuitem_attributes(env, state, node, is_submenu, n).diagnostics,
            d,
            exists|i: int|
                0 <= i < n && menu_attribute_gives(
                    node,
                    is_submenu,
                    #[trigger] node.attributes@[i],
                    d,
                ),
        ),
        menuitem_attributes(env, state, node, is_submenu, n).index == state.index,
    decreases n,
{
    if n > 0 {
        menu_attributes_report(env, state, node, is_submenu, n - 1, d);
        menu_attribute_reports(
            env,
            menuitem_attributes(env, state, node, is_submenu, n - 1),
            node,
            is_submenu,
            node.attributes@[n - 1],
            d,
        );
        if exists|i: int|
            0 <= i < n - 1 && menu_attribute_gives(
                node,
                is_submenu,
                #[trigger] node.attributes@[i],
                d,
            ) {
            let i = choose|i: int|
                0 <= i < n - 1 && menu_attribute_gives(
                    node,
                    is_submenu,
                    #[trigger] node.attributes@[i],
                    d,
                );
            assert(0 <= i < n);
        }
    }
}

/// Whether a child of a `<menuitem>` is refused, and the diagnostic says so.
spec fn menu_child_gives(child: XmlNode, d: DiagnosticView) -> bool {
    child.kind == NodeKind::Element && child.tag@ != "menuitem"@ && says(
        d,
        DiagnosticCode::OLS05011,
        seq![child.tag@],
        child.range,
    )
}

proof fn menu_children_report(
    env: ArchEnv,
    state: ArchState,
    node: XmlNode,
    is_submenu: bool,
    children: Seq<XmlNode>,
    d: DiagnosticView,
)
    requires
        !tells_of_undeclared(d),
    ensures
        reports(
            env.disabled,
            state.diagnostics,
            menuitem_children(env, state, children).diagnostics,
            d,
            (exists|i: int| 0 <= i < children.len() && menu_child_gives(#[trigger] children[i], d))
                || any_gives(env, node, Role::Menu(is_submenu), children, d),
        ),
    decreases children,
{
    if children.len() > 0 {
        let front = children.drop_last();
        let child = children.last();
        let before = menuitem_children(env, state, front);
        menu_children_report(env, state, node, is_submenu, front, d);
        any_step(children, |child: XmlNode| menu_child_gives(child, d));
        tags_hold_something();
        tag_is(child, "menuitem"@);
        if child.kind == NodeKind::Element {
            if child.tag_name() == "menuitem"@ {
                menu_reports(env, before, child, true, d);
            } else {
                emit_reports(
                    env,
                    before,
                    DiagnosticCode::OLS05011,
                    seq![child.tag_name()],
                    child.range,
                    d,
                );
            }
        }
    }
}

proof fn menu_reports(
    env: ArchEnv,
    state: ArchState,
    node: XmlNode,
    is_submenu: bool,
    d: DiagnosticView,
)
    requires
        !tells_of_undeclared(d),
    ensures
        reports(
            env.disabled,
            state.diagnostics,
            menuitem_loaded(env, state, node, is_submenu).diagnostics,
            d,
            gives(env, node, Role::Menu(is_submenu), d),
        ),
    decreases node,
{
    let n = node.attributes@.len() as int;
    let id = last_named(node.attributes@, "id"@);
    last_is_last(node, "id"@);
    menu_attributes_report(env, state, node, is_submenu, n, d);
    let attributes = menuitem_attributes(env, state, node, is_submenu, n);
    emit_reports(env, attributes, DiagnosticCode::OLS05006, seq![], node.range, d);
    let identified = if id is None {
        attributes.emit(env, DiagnosticCode::OLS05006, seq![], node.range)
    } else {
        attributes
    };
    menu_children_report(env, identified, node, is_submenu, node.children@, d);
    let inside = menuitem_children(env, identified, node.children@);
    let data = crate::xml_data::DataView {
        file_symbol: env.file,
        xml_id: id,
        range: node.range,
        kind: crate::xml_data::DataKind::MenuItem,
    };
    register_reports(env, inside, id, node, data, d);
    assert((exists|value: Seq<char>| #[trigger]
        has_last(node, "id"@, value) && id_gives(env, value, node, d)) <==> id is Some && id_gives(
        env,
        id->0,
        node,
        d,
    )) by {
        if id is Some {
            assert(has_last(node, "id"@, id->0));
        }
    }
    assert((exists|i: int|
        0 <= i < node.children@.len() && menu_child_gives(#[trigger] node.children@[i], d)) <==> (
    exists|i: int|
        0 <= i < node.children@.len() && {
            let child = #[trigger] node.children@[i];
            child.kind == NodeKind::Element && child.tag@ != "menuitem"@ && says(
                d,
                DiagnosticCode::OLS05011,
                seq![child.tag@],
                child.range,
            )
        })) by {
        if exists|i: int|
            0 <= i < node.children@.len() && menu_child_gives(#[trigger] node.children@[i], d) {
            let i = choose|i: int|
                0 <= i < node.children@.len() && menu_child_gives(#[trigger] node.children@[i], d);
            assert(node.children@[i].kind == NodeKind::Element);
        }
    }
}

/// Whether a child that is a value gives rise to a diagnostic.
spec fn listed_gives(disabled: Set<DiagnosticCode>, child: XmlNode, d: DiagnosticView) -> bool {
    item_gives(child, d) || is_tagged(child, "value"@) && value_gives(disabled, child, d)
}

proof fn list_reports(
    disabled: Set<DiagnosticCode>,
    found: Seq<DiagnosticView>,
    children: Seq<XmlNode>,
    d: DiagnosticView,
)
    ensures
        reports(
            disabled,
            found,
            list_children(disabled, found, children),
            d,
            exists|i: int|
                0 <= i < children.len() && listed_gives(disabled, #[trigger] children[i], d),
        ),
    decreases children.len(),
{
    if children.len() > 0 {
        let front = children.drop_last();
        let child = children.last();
        let before = list_children(disabled, found, front);
        list_reports(disabled, found, front, d);
        any_step(children, |child: XmlNode| listed_gives(disabled, child, d));
        tags_hold_something();
        tag_is(child, "value"@);
        if child.tag_name() == "value"@ {
            value_reports(disabled, before, child, d);
        } else {
            flag_reports(
                disabled,
                before,
                DiagnosticCode::OLS05020,
                seq![child.tag_name()],
                child.range,
                d,
            );
        }
    }
}

proof fn types_differ()
    ensures
        "int"@ != "float"@,
        "int"@ != "list"@,
        "int"@ != "tuple"@,
        "int"@ != "base64"@,
        "int"@ != "char"@,
        "int"@ != "file"@,
        "float"@ != "list"@,
        "float"@ != "tuple"@,
        "float"@ != "base64"@,
        "float"@ != "char"@,
        "float"@ != "file"@,
        "list"@ != "base64"@,
        "list"@ != "char"@,
        "list"@ != "file"@,
        "tuple"@ != "base64"@,
        "tuple"@ != "char"@,
        "tuple"@ != "file"@,
{
    reveal_strlit("int");
    reveal_strlit("float");
    reveal_strlit("list");
    reveal_strlit("tuple");
    reveal_strlit("base64");
    reveal_strlit("char");
    reveal_strlit("file");
    assert("int"@.len() == 3 && "float"@.len() == 5 && "list"@.len() == 4);
    assert("tuple"@.len() == 5 && "base64"@.len() == 6);
    assert("char"@.len() == 4 && "file"@.len() == 4);
    assert("float"@[0] == 'f' && "tuple"@[0] == 't');
    assert("list"@[0] == 'l' && "char"@[0] == 'c' && "file"@[0] == 'f');
}

/// Whether a child of a list that is a value gives rise to a diagnostic.
spec fn any_listed_gives(
    disabled: Set<DiagnosticCode>,
    children: Seq<XmlNode>,
    d: DiagnosticView,
) -> bool {
    exists|i: int|
        0 <= i < children.len() && is_tagged(#[trigger] children[i], "value"@) && value_gives(
            disabled,
            children[i],
            d,
        )
}

proof fn type_reports(
    disabled: Set<DiagnosticCode>,
    found: Seq<DiagnosticView>,
    node: XmlNode,
    d: DiagnosticView,
)
    requires
        node.kind == NodeKind::Element,
    ensures
        reports(
            disabled,
            found,
            field_type_rules(disabled, found, node),
            d,
            type_gives(node, d) || holds_list(node) && any_listed_gives(
                disabled,
                node.children@,
                d,
            ),
        ),
{
    let content = text_of(node);
    let children = node.children@;
    first_is_first(node, "type"@);
    first_is_first(node, "file"@);
    types_differ();
    flag_reports(disabled, found, DiagnosticCode::OLS05018, seq![content], node.range, d);
    flag_reports(disabled, found, DiagnosticCode::OLS05019, seq![content], node.range, d);
    flag_reports(disabled, found, DiagnosticCode::OLS05021, seq![], node.range, d);
    list_reports(disabled, found, children, d);
    assert((exists|i: int| 0 <= i < children.len() && listed_gives(disabled, #[trigger] children[i], d))
        <==> (exists|i: int| 0 <= i < children.len() && #[trigger] item_gives(children[i], d))
        || any_listed_gives(disabled, children, d)) by {
        if exists|i: int|
            0 <= i < children.len() && listed_gives(disabled, #[trigger] children[i], d) {
            let i = choose|i: int|
                0 <= i < children.len() && listed_gives(disabled, #[trigger] children[i], d);
            if item_gives(children[i], d) {
            } else {
                assert(is_tagged(children[i], "value"@) && value_gives(disabled, children[i], d));
            }
        }
        if exists|i: int| 0 <= i < children.len() && #[trigger] item_gives(children[i], d) {
            let i = choose|i: int| 0 <= i < children.len() && #[trigger] item_gives(children[i], d);
            assert(listed_gives(disabled, children[i], d));
        }
        if any_listed_gives(disabled, children, d) {
            let i = choose|i: int|
                0 <= i < children.len() && is_tagged(#[trigger] children[i], "value"@)
                    && value_gives(disabled, children[i], d);
            assert(listed_gives(disabled, children[i], d));
        }
    }
    assert(has_first(node, "type"@, "int"@) <==> node.attribute_value("type"@) == Some("int"@));
    assert(has_first(node, "type"@, "float"@) <==> node.attribute_value("type"@) == Some("float"@));
    assert(has_first(node, "type"@, "list"@) <==> node.attribute_value("type"@) == Some("list"@));
    assert(has_first(node, "type"@, "tuple"@) <==> node.attribute_value("type"@) == Some("tuple"@));
    assert(has_first(node, "type"@, "base64"@) <==> node.attribute_value("type"@)
        == Some("base64"@));
    assert(has_first(node, "type"@, "char"@) <==> node.attribute_value("type"@) == Some("char"@));
    assert(has_first(node, "type"@, "file"@) <==> node.attribute_value("type"@) == Some("file"@));
}

proof fn field_attributes_report(
    disabled: Set<DiagnosticCode>,
    found: Seq<DiagnosticView>,
    node: XmlNode,
    n: int,
    d: DiagnosticView,
)
    requires
        node.kind == NodeKind::Element,
        0 <= n <= node.attributes@.len(),
    ensures
        reports(
            disabled,
            found,
            field_attributes(disabled, found, node, n),
            d,
            exists|i: int|
                0 <= i < n && field_attribute_gives(node, #[trigger] node.attributes@[i], d),
        ),
    decreases n,
{
    if n > 0 {
        let attr = node.attributes@[n - 1];
        let before = field_attributes(disabled, found, node, n - 1);
        field_attributes_report(disabled, found, node, n - 1, d);
        first_is_first(node, "eval"@);
        first_is_first(node, "search"@);
        flag_reports(disabled, before, DiagnosticCode::OLS05022, seq![attr.name@], node.range, d);
        flag_reports(disabled, before, DiagnosticCode::OLS05023, seq![], attr.range, d);
        flag_reports(disabled, before, DiagnosticCode::OLS05024, seq![], attr.range, d);
        flag_reports(disabled, before, DiagnosticCode::OLS05025, seq![attr.name@], attr.range, d);
        if exists|i: int|
            0 <= i < n - 1 && field_attribute_gives(node, #[trigger] node.attributes@[i], d) {
            let i = choose|i: int|
                0 <= i < n - 1 && field_attribute_gives(node, #[trigger] node.attributes@[i], d);
            assert(0 <= i < n);
        }
    }
}

/// Whether a child may not stand in a field, and the diagnostic says so.
spec fn field_child_gives(node: XmlNode, child: XmlNode, d: DiagnosticView) -> bool {
    !may_hold(node, child) && says_only(d, DiagnosticCode::OLS05026, child.range)
}

/// Whether a record among the children of a field gives rise to a diagnostic.
spec fn any_record_gives(env: ArchEnv, children: Seq<XmlNode>, d: DiagnosticView) -> bool
    decreases children,
{
    children.len() > 0 && (any_record_gives(env, children.drop_last(), d) || (is_tagged(
        children.last(),
        "record"@,
    ) && gives(env, children.last(), Role::Record, d)))
}

proof fn field_children_report(
    env: ArchEnv,
    state: ArchState,
    node: XmlNode,
    children: Seq<XmlNode>,
    free: bool,
    d: DiagnosticView,
)
    requires
        free == (has_first(node, "type"@, "html"@) || has_first(node, "type"@, "xml"@)
            || has_first(node, "type"@, "list"@) || has_first(node, "type"@, "tuple"@)),
    ensures
        reports(
            env.disabled,
            state.diagnostics,
            field_children(env, state, children, free).diagnostics,
            d,
            (exists|i: int|
                0 <= i < children.len() && field_child_gives(node, #[trigger] children[i], d))
                || any_record_gives(env, children, d),
        ),
    decreases children,
{
    if children.len() > 0 {
        let front = children.drop_last();
        let child = children.last();
        let before = field_children(env, state, front, free);
        field_children_report(env, state, node, front, free, d);
        any_step(children, |child: XmlNode| field_child_gives(node, child, d));
        tags_hold_something();
        tag_is(child, "record"@);
        if child.tag_name() == "record"@ {
            record_reports(env, before, child, d);
        } else {
            emit_reports(env, before, DiagnosticCode::OLS05026, seq![], child.range, d);
        }
    }
}

/// What the children of a proper field give rise to is what its records do, and its values if
/// it is a list.
proof fn field_children_give(
    env: ArchEnv,
    node: XmlNode,
    children: Seq<XmlNode>,
    d: DiagnosticView,
)
    requires
        is_proper(node),
    ensures
        any_gives(env, node, Role::Field, children, d) <==> any_record_gives(env, children, d)
            || holds_list(node) && any_listed_gives(env.disabled, children, d),
    decreases children.len(),
{
    if children.len() > 0 {
        let front = children.drop_last();
        let child = children.last();
        field_children_give(env, node, front, d);
        any_step(
            children,
            |child: XmlNode|
                is_tagged(child, "value"@) && value_gives(env.disabled, child, d),
        );
        assert("record"@ != "value"@) by {
            reveal_strlit("record");
            reveal_strlit("value");
            assert("record"@.len() == 6 && "value"@.len() == 5);
        }
        if is_tagged(child, "value"@) {
            leaf_gives(env, child, Role::Value, child.children@, d);
            assert(gives(env, child, Role::Value, d) == value_gives(env.disabled, child, d));
        }
    }
}

proof fn field_reports(env: ArchEnv, state: ArchState, node: XmlNode, d: DiagnosticView)
    requires
        is_tagged(node, "field"@),
    ensures
        reports(
            env.disabled,
            state.diagnostics,
            field_loaded(env, state, node).diagnostics,
            d,
            gives(env, node, Role::Field, d),
        ),
    decreases node,
{
    first_is_first(node, "name"@);
    first_is_first(node, "type"@);
    first_is_first(node, "ref"@);
    first_is_first(node, "eval"@);
    first_is_first(node, "search"@);
    tags_hold_something();
    tag_is(node, "field"@);
    assert(has_two_values(node) == (value_attribute_count(node) > 1));
    if !carries(node, "name"@) {
        emit_reports(env, state, DiagnosticCode::OLS05016, seq![], node.range, d);
        leaf_gives(env, node, Role::Field, node.children@, d);
    } else if has_two_values(node) {
        emit_reports(env, state, DiagnosticCode::OLS05017, seq![], node.range, d);
        leaf_gives(env, node, Role::Field, node.children@, d);
    } else {
        let n = node.attributes@.len() as int;
        let typed = field_type_rules(env.disabled, state.diagnostics, node);
        let attributes = field_attributes(env.disabled, typed, node, n);
        let free = crate::xml_arch_builder_rng_validation::is_list_field(node)
            || crate::xml_arch_builder_rng_validation::is_markup_field(node);
        let typ = node.attribute_value("type"@);
        assert(has_first(node, "type"@, "html"@) <==> typ == Some("html"@));
        assert(has_first(node, "type"@, "xml"@) <==> typ == Some("xml"@));
        assert(has_first(node, "type"@, "list"@) <==> typ == Some("list"@));
        assert(has_first(node, "type"@, "tuple"@) <==> typ == Some("tuple"@));
        type_reports(env.disabled, state.diagnostics, node, d);
        field_attributes_report(env.disabled, typed, node, n, d);
        field_children_report(env, state.with(attributes), node, node.children@, free, d);
        field_children_give(env, node, node.children@, d);
        assert((exists|i: int|
            0 <= i < node.children@.len() && field_child_gives(node, #[trigger] node.children@[i], d))
            <==> (exists|i: int|
            0 <= i < node.children@.len() && !may_hold(node, #[trigger] node.children@[i])
                && says_only(d, DiagnosticCode::OLS05026, node.children@[i].range))) by {
            if exists|i: int|
                0 <= i < node.children@.len() && field_child_gives(
                    node,
                    #[trigger] node.children@[i],
                    d,
                ) {
                let i = choose|i: int|
                    0 <= i < node.children@.len() && field_child_gives(
                        node,
                        #[trigger] node.children@[i],
                        d,
                    );
                assert(!may_hold(node, node.children@[i]));
            }
        }
    }
}

/// Whether an attribute of a `<record>` is unknown, and the diagnostic says so.
spec fn record_attribute_gives(attr: XmlAttribute, d: DiagnosticView) -> bool {
    let name = attr.name@;
    name != "id"@ && name != "forcecreate"@ && name != "model"@ && name != "uid"@ && name
        != "context"@ && says(d, DiagnosticCode::OLS05013, seq![name], attr.range)
}

proof fn record_attributes_report(
    disabled: Set<DiagnosticCode>,
    found: Seq<DiagnosticView>,
    node: XmlNode,
    n: int,
    d: DiagnosticView,
)
    requires
        0 <= n <= node.attributes@.len(),
    ensures
        reports(
            disabled,
            found,
            record_attributes(disabled, found, node, n),
            d,
            exists|i: int| 0 <= i < n && record_attribute_gives(#[trigger] node.attributes@[i], d),
        ),
    decreases n,
{
    if n > 0 {
        let attr = node.attributes@[n - 1];
        let before = record_attributes(disabled, found, node, n - 1);
        record_attributes_report(disabled, found, node, n - 1, d);
        flag_reports(disabled, before, DiagnosticCode::OLS05013, seq![attr.name@], attr.range, d);
        if exists|i: int|
            0 <= i < n - 1 && record_attribute_gives(#[trigger] node.attributes@[i], d) {
            let i = choose|i: int|
                0 <= i < n - 1 && record_attribute_gives(#[trigger] node.attributes@[i], d);
            assert(0 <= i < n);
        }
    }
}

/// Whether a child of a `<record>` is no field, and the diagnostic says so.
spec fn record_child_gives(child: XmlNode, d: DiagnosticView) -> bool {
    child.kind == NodeKind::Element && child.tag@ != "field"@ && says(
        d,
        DiagnosticCode::OLS05015,
        seq![child.tag@],
        child.range,
    )
}

proof fn record_children_report(
    env: ArchEnv,
    state: ArchState,
    node: XmlNode,
    children: Seq<XmlNode>,
    d: DiagnosticView,
)
    requires
        carries(node, "model"@),
    ensures
        reports(
            env.disabled,
            state.diagnostics,
            record_children(env, state, children).diagnostics,
            d,
            (exists|i: int| 0 <= i < children.len() && record_child_gives(#[trigger] children[i], d))
                || any_gives(env, node, Role::Record, children, d),
        ),
    decreases children,
{
    if children.len() > 0 {
        let front = children.drop_last();
        let child = children.last();
        let before = record_children(env, state, front);
        record_children_report(env, state, node, front, d);
        any_step(children, |child: XmlNode| record_child_gives(child, d));
        tags_hold_something();
        tag_is(child, "field"@);
        if child.kind == NodeKind::Element {
            if child.tag_name() == "field"@ {
                field_reports(env, before, child, d);
            } else {
                emit_reports(
                    env,
                    before,
                    DiagnosticCode::OLS05015,
                    seq![child.tag_name()],
                    child.range,
                    d,
                );
            }
        }
    }
}

pub(crate) proof fn record_reports(env: ArchEnv, state: ArchState, node: XmlNode, d: DiagnosticView)
    ensures
        reports(
            env.disabled,
            state.diagnostics,
            record_loaded(env, state, node).diagnostics,
            d,
            gives(env, node, Role::Record, d),
        ),
    decreases node,
{
    let n = node.attributes@.len() as int;
    let id = last_named(node.attributes@, "id"@);
    let attributes = state.with(record_attributes(env.disabled, state.diagnostics, node, n));
    last_is_last(node, "id"@);
    record_attributes_report(env.disabled, state.diagnostics, node, n, d);
    assert((exists|i: int| 0 <= i < n && record_attribute_gives(#[trigger] node.attributes@[i], d))
        <==> (exists|i: int|
        0 <= i < node.attributes@.len() && {
            let attr = #[trigger] node.attributes@[i];
            let name = attr.name@;
            name != "id"@ && name != "forcecreate"@ && name != "model"@ && name != "uid"@ && name
                != "context"@ && says(d, DiagnosticCode::OLS05013, seq![name], attr.range)
        })) by {
        if exists|i: int| 0 <= i < n && record_attribute_gives(#[trigger] node.attributes@[i], d) {
            let i = choose|i: int|
                0 <= i < n && record_attribute_gives(#[trigger] node.attributes@[i], d);
            assert(node.attributes@[i].name@ != "id"@);
        }
    }
    assert(named(node, "model"@) == carries(node, "model"@));
    if !carries(node, "model"@) {
        emit_reports(env, attributes, DiagnosticCode::OLS05014, seq![], node.range, d);
        leaf_gives(env, node, Role::Record, node.children@, d);
    } else {
        record_children_report(env, attributes, node, node.children@, d);
        let inside = record_children(env, attributes, node.children@);
        let data = crate::xml_data::DataView {
            file_symbol: env.file,
            xml_id: id,
            range: node.range,
            kind: crate::xml_data::DataKind::Record {
                model: node.attribute("model"@)->0.value@,
                model_range: node.attribute("model"@)->0.value_range,
                fields: crate::xml_arch_builder_rng_validation::record_fields(node.children@),
            },
        };
        register_reports(env, inside, id, node, data, d);
        assert((exists|value: Seq<char>| #[trigger]
            has_last(node, "id"@, value) && id_gives(env, value, node, d)) <==> id is Some
            && id_gives(env, id->0, node, d)) by {
            if id is Some {
                assert(has_last(node, "id"@, id->0));
            }
        }
        assert((exists|i: int|
            0 <= i < node.children@.len() && record_child_gives(#[trigger] node.children@[i], d))
            <==> (exists|i: int|
            0 <= i < node.children@.len() && {
                let child = #[trigger] node.children@[i];
                child.kind == NodeKind::Element && child.tag@ != "field"@ && says(
                    d,
                    DiagnosticCode::OLS05015,
                    seq![child.tag@],
                    child.range,
                )
            })) by {
            if exists|i: int|
                0 <= i < node.children@.len() && record_child_gives(#[trigger] node.children@[i], d) {
                let i = choose|i: int|
                    0 <= i < node.children@.len() && record_child_gives(
                        #[trigger] node.children@[i],
                        d,
                    );
                assert(node.children@[i].kind == NodeKind::Element);
            }
        }
    }
}

proof fn first_id_decides(env: ArchEnv, node: XmlNode, d: DiagnosticView)
    ensures
        node.attribute_value("id"@) is Some == carries(node, "id"@),
        (exists|id: Seq<char>| #[trigger] has_first(node, "id"@, id) && id_gives(env, id, node, d))
            <==> node.attribute_value("id"@) is Some && id_gives(
            env,
            node.attribute_value("id"@)->0,
            node,
            d,
        ),
{
    first_is_first(node, "id"@);
    if node.attribute_value("id"@) is Some {
        assert(has_first(node, "id"@, node.attribute_value("id"@)->0));
    }
}

pub(crate) proof fn template_reports(env: ArchEnv, state: ArchState, node: XmlNode, d: DiagnosticView)
    ensures
        reports(
            env.disabled,
            state.diagnostics,
            template_loaded(env, state, node).diagnostics,
            d,
            gives(env, node, Role::Template, d),
        ),
{
    let id = node.attribute_value("id"@);
    let data = crate::xml_data::DataView {
        file_symbol: env.file,
        xml_id: id,
        range: node.range,
        kind: crate::xml_data::DataKind::Template,
    };
    first_id_decides(env, node, d);
    register_reports(env, state, id, node, data, d);
    leaf_gives(env, node, Role::Template, node.children@, d);
}

pub(crate) proof fn delete_reports(env: ArchEnv, state: ArchState, node: XmlNode, d: DiagnosticView)
    ensures
        reports(
            env.disabled,
            state.diagnostics,
            delete_loaded(env, state, node).diagnostics,
            d,
            gives(env, node, Role::Delete, d),
        ),
{
    let id = node.attribute_value("id"@);
    first_id_decides(env, node, d);
    first_is_first(node, "model"@);
    first_is_first(node, "search"@);
    leaf_gives(env, node, Role::Delete, node.children@, d);
    emit_reports(env, state, DiagnosticCode::OLS05033, seq![], node.range, d);
    emit_reports(env, state, DiagnosticCode::OLS05034, seq![], node.range, d);
    emit_reports(env, state, DiagnosticCode::OLS05035, seq![], node.range, d);
    let checked = if id is Some && node.has_attribute("search"@) {
        state.emit(env, DiagnosticCode::OLS05034, seq![], node.range)
    } else if id is None && !node.has_attribute("search"@) {
        state.emit(env, DiagnosticCode::OLS05035, seq![], node.range)
    } else {
        state
    };
    let data = crate::xml_data::DataView {
        file_symbol: env.file,
        xml_id: id,
        range: node.range,
        kind: crate::xml_data::DataKind::Delete { model: node.attribute_value("model"@)->0 },
    };
    register_reports(env, checked, id, node, data, d);
}

pub(crate) proof fn report_reports(
    env: ArchEnv,
    found: Seq<DiagnosticView>,
    node: XmlNode,
    d: DiagnosticView,
)
    ensures
        reports(
            env.disabled,
            found,
            report_rules(env.disabled, found, node),
            d,
            gives(env, node, Role::Report, d),
        ),
{
    let first = lacks(env.disabled, found, node, "model"@);
    let second = lacks(env.disabled, first, node, "name"@);
    lacks_reports(env.disabled, found, node, "model"@, d);
    lacks_reports(env.disabled, first, node, "name"@, d);
    lacks_reports(env.disabled, second, node, "string"@, d);
    leaf_gives(env, node, Role::Report, node.children@, d);
}

/// Whether an attribute of a root is unknown, and the diagnostic says so.
spec fn root_attribute_gives(attr: XmlAttribute, tag: Seq<char>, d: DiagnosticView) -> bool {
    let name = attr.name@;
    name != "noupdate"@ && name != "auto_sequence"@ && name != "uid"@ && name != "context"@ && says(
        d,
        DiagnosticCode::OLS05004,
        seq![name, tag],
        attr.range,
    )
}

proof fn root_attributes_report(
    disabled: Set<DiagnosticCode>,
    found: Seq<DiagnosticView>,
    node: XmlNode,
    n: int,
    d: DiagnosticView,
)
    requires
        0 <= n <= node.attributes@.len(),
    ensures
        reports(
            disabled,
            found,
            root_attributes(disabled, found, node, n),
            d,
            exists|i: int|
                0 <= i < n && root_attribute_gives(
                    #[trigger] node.attributes@[i],
                    node.tag_name(),
                    d,
                ),
        ),
    decreases n,
{
    if n > 0 {
        let tag = node.tag_name();
        let attr = node.attributes@[n - 1];
        let before = root_attributes(disabled, found, node, n - 1);
        root_attributes_report(disabled, found, node, n - 1, d);
        flag_reports(
            disabled,
            before,
            DiagnosticCode::OLS05004,
            seq![attr.name@, tag],
            attr.range,
            d,
        );
        if exists|i: int|
            0 <= i < n - 1 && root_attribute_gives(#[trigger] node.attributes@[i], tag, d) {
            let i = choose|i: int|
                0 <= i < n - 1 && root_attribute_gives(#[trigger] node.attributes@[i], tag, d);
            assert(0 <= i < n);
        }
    }
}

/// Whether a child of a root is loaded as nothing, and the diagnostic says so.
spec fn root_child_gives(child: XmlNode, tag: Seq<char>, d: DiagnosticView) -> bool {
    child.kind == NodeKind::Element && role_in_root(child) is None && says(
        d,
        DiagnosticCode::OLS05005,
        seq![child.tag@, tag],
        child.range,
    )
}

proof fn root_children_report(
    env: ArchEnv,
    state: ArchState,
    node: XmlNode,
    children: Seq<XmlNode>,
    tag: Seq<char>,
    d: DiagnosticView,
)
    requires
        !tells_of_undeclared(d),
    ensures
        reports(
            env.disabled,
            state.diagnostics,
            root_children(env, state, children, tag).diagnostics,
            d,
            (exists|i: int|
                0 <= i < children.len() && root_child_gives(#[trigger] children[i], tag, d))
                || any_gives(env, node, Role::Root, children, d),
        ),
    decreases children,
{
    if children.len() > 0 {
        let front = children.drop_last();
        let child = children.last();
        let before = root_children(env, state, front, tag);
        root_children_report(env, state, node, front, tag, d);
        any_step(children, |child: XmlNode| root_child_gives(child, tag, d));
        if child.kind == NodeKind::Element {
            match role_in_root(child) {
                Some(Role::Root) => {
                    root_reports(env, before, child, d);
                },
                Some(Role::Menu(_)) => {
                    menu_reports(env, before, child, false, d);
                },
                Some(Role::Record) => {
                    record_reports(env, before, child, d);
                },
                Some(Role::Template) => {
                    template_reports(env, before, child, d);
                },
                Some(Role::Delete) => {
                    delete_reports(env, before, child, d);
                },
                Some(Role::Function) => {
                    function_reports(env, before.diagnostics, child, d);
                },
                Some(Role::Report) => {
                    report_reports(env, before.diagnostics, child, d);
                },
                _ => {
                    emit_reports(
                        env,
                        before,
                        DiagnosticCode::OLS05005,
                        seq![child.tag_name(), tag],
                        child.range,
                        d,
                    );
                },
            }
        }
    }
}

proof fn root_reports(env: ArchEnv, state: ArchState, node: XmlNode, d: DiagnosticView)
    requires
        !tells_of_undeclared(d),
    ensures
        reports(
            env.disabled,
            state.diagnostics,
            root_loaded(env, state, node).diagnostics,
            d,
            gives(env, node, Role::Root, d),
        ),
    decreases node,
{
    let n = node.attributes@.len() as int;
    let tag = node.tag_name();
    root_attributes_report(env.disabled, state.diagnostics, node, n, d);
    let attributes = state.with(root_attributes(env.disabled, state.diagnostics, node, n));
    root_children_report(env, attributes, node, node.children@, tag, d);
    assert((exists|i: int| 0 <= i < n && root_attribute_gives(#[trigger] node.attributes@[i], tag, d))
        <==> (exists|i: int|
        0 <= i < node.attributes@.len() && {
            let attr = #[trigger] node.attributes@[i];
            let name = attr.name@;
            name != "noupdate"@ && name != "auto_sequence"@ && name != "uid"@ && name
                != "context"@ && says(d, DiagnosticCode::OLS05004, seq![name, tag], attr.range)
        })) by {
        if exists|i: int| 0 <= i < n && root_attribute_gives(#[trigger] node.attributes@[i], tag, d) {
            let i = choose|i: int|
                0 <= i < n && root_attribute_gives(#[trigger] node.attributes@[i], tag, d);
            assert(node.attributes@[i].name@ != "noupdate"@);
        }
    }
    assert((exists|i: int|
        0 <= i < node.children@.len() && root_child_gives(#[trigger] node.children@[i], tag, d))
        <==> (exists|i: int|
        0 <= i < node.children@.len() && {
            let child = #[trigger] node.children@[i];
            child.kind == NodeKind::Element && role_in_root(child) is None && says(
                d,
                DiagnosticCode::OLS05005,
                seq![child.tag@, tag],
                child.range,
            )
        })) by {
        if exists|i: int|
            0 <= i < node.children@.len() && root_child_gives(#[trigger] node.children@[i], tag, d) {
            let i = choose|i: int|
                0 <= i < node.children@.len() && root_child_gives(
                    #[trigger] node.children@[i],
                    tag,
                    d,
                );
            assert(node.children@[i].kind == NodeKind::Element);
        }
    }
}

/// Loading a file reports exactly what its elements give rise to, each by the rules for what it
/// is loaded as, and leaves out what is switched off. Set aside are the three diagnostics that
/// tell of menus, actions and groups that are not declared: these depend on what was declared
/// before.
pub proof fn loading_reports_exactly(
    env: ArchEnv,
    state: ArchState,
    root: XmlNode,
    d: DiagnosticView,
)
    requires
        !tells_of_undeclared(d),
    ensures
        root_loaded(env, state, root).diagnostics.contains(d) <==> state.diagnostics.contains(d)
            || gives(env, root, Role::Root, d) && !env.disabled.contains(d.code),
{
    root_reports(env, state, root, d);
}

/// A child of a proper `<field>` is refused if and only if it is no `<record>`, no text and no
/// comment, and the type of the field is neither markup nor a list. Nothing else is refused that
/// way but what stands in the records of the field.
pub proof fn stray_child_is_refused(
    env: ArchEnv,
    state: ArchState,
    field: XmlNode,
    d: DiagnosticView,
)
    requires
        is_tagged(field, "field"@),
        is_proper(field),
        forall|i: int|
            0 <= i < field.children@.len() ==> !is_tagged(#[trigger] field.children@[i], "record"@),
        d.code == DiagnosticCode::OLS05026,
    ensures
        field_loaded(env, state, field).diagnostics.contains(d) <==> state.diagnostics.contains(d)
            || !env.disabled.contains(DiagnosticCode::OLS05026) && d.args.len() == 0 && exists|
            i: int,
        |
            0 <= i < field.children@.len() && points_at(d, (#[trigger] field.children@[i]).range)
                && field.children@[i].kind != NodeKind::Text && field.children@[i].kind
                != NodeKind::Comment && !has_first(field, "type"@, "html"@) && !has_first(
                field,
                "type"@,
                "xml"@,
            ) && !has_first(field, "type"@, "list"@) && !has_first(field, "type"@, "tuple"@),
{
    let children = field.children@;
    field_reports(env, state, field, d);
    field_children_give(env, field, children, d);
    no_record_gives(env, children, d);
    assert forall|i: int| 0 <= i < children.len() implies !value_gives(
        env.disabled,
        #[trigger] children[i],
        d,
    ) by {}
    assert(d.args.len() == 0 <==> d.args == Seq::<Seq<char>>::empty()) by {
        if d.args.len() == 0 {
            assert(d.args =~= Seq::<Seq<char>>::empty());
        }
    }
    if exists|i: int|
        0 <= i < children.len() && !may_hold(field, #[trigger] children[i]) && says_only(
            d,
            DiagnosticCode::OLS05026,
            children[i].range,
        ) {
        let i = choose|i: int|
            0 <= i < children.len() && !may_hold(field, #[trigger] children[i]) && says_only(
                d,
                DiagnosticCode::OLS05026,
                children[i].range,
            );
        assert(points_at(d, children[i].range));
    }
}

proof fn no_record_gives(env: ArchEnv, children: Seq<XmlNode>, d: DiagnosticView)
    requires
        forall|i: int|
            0 <= i < children.len() ==> !is_tagged(#[trigger] children[i], "record"@),
    ensures
        !any_record_gives(env, children, d),
    decreases children.len(),
{
    if children.len() > 0 {
        let front = children.drop_last();
        assert(!is_tagged(children[children.len() - 1], "record"@));
        assert forall|i: int| 0 <= i < front.len() implies !is_tagged(
            #[trigger] front[i],
            "record"@,
        ) by {
            assert(front[i] == children[i]);
        }
        no_record_gives(env, front, d);
    }
}

/// Loading a `<field>` reports what the field gives rise to, and what the records in it do.
pub proof fn field_reports_exactly(
    env: ArchEnv,
    state: ArchState,
    field: XmlNode,
    d: DiagnosticView,
)
    requires
        is_tagged(field, "field"@),
    ensures
        field_loaded(env, state, field).diagnostics.contains(d) <==> state.diagnostics.contains(d)
            || gives(env, field, Role::Field, d) && !env.disabled.contains(d.code),
{
    field_reports(env, state, field, d);
}

/// Whatever stands in a field of markup, if it holds no record, gives rise to nothing but what
/// its attributes do.
pub proof fn markup_is_free(env: ArchEnv, state: ArchState, field: XmlNode, d: DiagnosticView)
    requires
        is_tagged(field, "field"@),
        is_proper(field),
        has_first(field, "type"@, "html"@) || has_first(field, "type"@, "xml"@),
        forall|i: int|
            0 <= i < field.children@.len() ==> !is_tagged(#[trigger] field.children@[i], "record"@),
    ensures
        field_loaded(env, state, field).diagnostics.contains(d) <==> state.diagnostics.contains(d)
            || !env.disabled.contains(d.code) && exists|i: int|
            0 <= i < field.attributes@.len() && field_attribute_gives(
                field,
                #[trigger] field.attributes@[i],
                d,
            ),
{
    field_reports(env, state, field, d);
    field_children_give(env, field, field.children@, d);
    no_record_gives(env, field.children@, d);
    first_is_first(field, "type"@);
    let typ = field.attribute_value("type"@);
    assert(has_first(field, "type"@, typ->0));
    markup_differs();
    assert(has_first(field, "type"@, "html"@) <==> typ == Some("html"@));
    assert(has_first(field, "type"@, "xml"@) <==> typ == Some("xml"@));
    assert(!has_first(field, "type"@, "int"@));
    assert(!has_first(field, "type"@, "float"@));
    assert(!has_first(field, "type"@, "list"@));
    assert(!has_first(field, "type"@, "tuple"@));
    assert(!has_first(field, "type"@, "base64"@));
    assert(!has_first(field, "type"@, "char"@));
    assert(!has_first(field, "type"@, "file"@));
}

proof fn markup_differs()
    ensures
        "html"@ != "int"@ && "html"@ != "float"@ && "html"@ != "list"@ && "html"@ != "tuple"@,
        "html"@ != "base64"@ && "html"@ != "char"@ && "html"@ != "file"@,
        "xml"@ != "int"@ && "xml"@ != "float"@ && "xml"@ != "list"@ && "xml"@ != "tuple"@,
        "xml"@ != "base64"@ && "xml"@ != "char"@ && "xml"@ != "file"@,
{
    reveal_strlit("html");
    reveal_strlit("xml");
    reveal_strlit("int");
    reveal_strlit("float");
    reveal_strlit("list");
    reveal_strlit("tuple");
    reveal_strlit("base64");
    reveal_strlit("char");
    reveal_strlit("file");
    assert("html"@.len() == 4 && "xml"@.len() == 3);
    assert("int"@.len() == 3 && "float"@.len() == 5 && "list"@.len() == 4);
    assert("tuple"@.len() == 5 && "base64"@.len() == 6);
    assert("char"@.len() == 4 && "file"@.len() == 4);
    assert("html"@[0] == 'h' && "xml"@[0] == 'x' && "int"@[0] == 'i');
    assert("list"@[0] == 'l' && "char"@[0] == 'c' && "file"@[0] == 'f');
}

/// What a record gives rise to never tells of something that is not declared.
pub(crate) proof fn record_gives_no_undeclared(env: ArchEnv, node: XmlNode, d: DiagnosticView)
    requires
        tells_of_undeclared(d),
    ensures
        !gives(env, node, Role::Record, d),
    decreases node,
{
    record_children_give_no_undeclared(env, node, node.children@, d);
}

proof fn record_children_give_no_undeclared(
    env: ArchEnv,
    node: XmlNode,
    children: Seq<XmlNode>,
    d: DiagnosticView,
)
    requires
        tells_of_undeclared(d),
    ensures
        !any_gives(env, node, Role::Record, children, d),
    decreases children,
{
    if children.len() > 0 {
        record_children_give_no_undeclared(env, node, children.drop_last(), d);
        let child = children.last();
        field_children_give_no_undeclared(env, child, child.children@, d);
        assert(!field_gives(child, d));
        assert(!gives(env, child, Role::Field, d));
    }
}

proof fn field_children_give_no_undeclared(
    env: ArchEnv,
    node: XmlNode,
    children: Seq<XmlNode>,
    d: DiagnosticView,
)
    requires
        tells_of_undeclared(d),
    ensures
        !any_gives(env, node, Role::Field, children, d),
    decreases children,
{
    if children.len() > 0 {
        field_children_give_no_undeclared(env, node, children.drop_last(), d);
        let child = children.last();
        record_gives_no_undeclared(env, child, d);
        leaf_gives_no_undeclared(env, child, Role::Value, d);
    }
}

/// Neither does what the elements do that load no others.
pub(crate) proof fn leaf_gives_no_undeclared(
    env: ArchEnv,
    node: XmlNode,
    role: Role,
    d: DiagnosticView,
)
    requires
        tells_of_undeclared(d),
        role == Role::Value || role == Role::Template || role == Role::Delete || role
            == Role::Report,
    ensures
        !gives(env, node, role, d),
{
    leaf_gives(env, node, role, node.children@, d);
}

/// Neither does what a function does.
pub(crate) proof fn function_gives_no_undeclared(env: ArchEnv, node: XmlNode, d: DiagnosticView)
    requires
        tells_of_undeclared(d),
    ensures
        !gives(env, node, Role::Function, d),
    decreases node,
{
    function_children_give_no_undeclared(env, node, node.children@, d);
}

proof fn function_children_give_no_undeclared(
    env: ArchEnv,
    node: XmlNode,
    children: Seq<XmlNode>,
    d: DiagnosticView,
)
    requires
        tells_of_undeclared(d),
    ensures
        !any_gives(env, node, Role::Function, children, d),
    decreases children,
{
    if children.len() > 0 {
        function_children_give_no_undeclared(env, node, children.drop_last(), d);
        function_gives_no_undeclared(env, children.last(), d);
        leaf_gives_no_undeclared(env, children.last(), Role::Value, d);
    }
}

/// Attributes of a root give rise to nothing else but that they are unknown.
pub(crate) proof fn root_attributes_are_known(
    disabled: Set<DiagnosticCode>,
    found: Seq<DiagnosticView>,
    node: XmlNode,
    n: int,
    d: DiagnosticView,
)
    requires
        d.code != DiagnosticCode::OLS05004,
        0 <= n <= node.attributes@.len(),
    ensures
        root_attributes(disabled, found, node, n).contains(d) <==> found.contains(d),
{
    root_attributes_report(disabled, found, node, n, d);
}

} // verus!
