//! What menu items may refer to.
use vstd::prelude::*;

use crate::constants::SymbolId;
use crate::diagnostics::{DiagnosticCode, DiagnosticView};
use crate::loading_laws::{delete_reports, emit_reports, function_gives_no_undeclared, function_reports, groups_report, is_tagged, leaf_gives_no_undeclared, lookup_reports, record_gives_no_undeclared, record_reports, report_reports, reports, role_in_root, root_attributes_are_known, says, submenus_report, tells_of_undeclared, template_reports, Role};
use crate::text::{join_seq, split_seq, strip_leading};
use crate::text_laws::{occurs, occurs_once_or_more, occurs_twice, only_at, split_in_more, split_in_two, split_of_one};
use crate::xml_arch_builder_rng_validation::{field_attributes, field_children, field_loaded, field_type_rules, groups_looked_up, is_list_field, is_markup_field, is_missing_group, last_named, menuitem_attribute, menuitem_attributes, menuitem_children, menuitem_loaded, record_attributes, record_children, record_loaded, root_attributes, root_children, root_loaded, submenus_refused};
use crate::xml_data::{DataKind, DataView};
use crate::xml_ids::{ArchEnv, ArchState, XmlIndex};
use crate::xml_node::{NodeKind, XmlAttribute, XmlNode};

verus! {

/// Whether an XML ID is looked up in the module under the key: one without a dot in the file's
/// module, one with a dot in the module before it, which has to be known.
pub open spec fn is_sought(env: ArchEnv, id: Seq<char>, module: SymbolId, key: Seq<char>) -> bool {
    ||| !occurs(id, '.') && key == id && env.module == Some(module)
    ||| exists|p: int| #[trigger]
        only_at(id, '.', p) && key == id.skip(p + 1) && env.modules.contains_key(id.take(p))
            && env.modules[id.take(p)] == module
}

/// Whether an XML ID stands for the data: a file that is there declares it for the module that
/// the ID is looked up in.
pub open spec fn is_meant(env: ArchEnv, index: XmlIndex, id: Seq<char>, data: DataView) -> bool {
    exists|module: SymbolId, key: Seq<char>, file: SymbolId| #[trigger]
        is_sought(env, id, module, key) && env.handles.contains_key(file)
            && index.locations[(module, key)].contains(env.handles[file])
            && #[trigger] index.data[(file, key)].contains(data)
}

/// Whether an XML ID stands for anything.
pub open spec fn is_meaningful(env: ArchEnv, index: XmlIndex, id: Seq<char>) -> bool {
    exists|data: DataView| #[trigger] is_meant(env, index, id, data)
}

/// Whether an XML ID stands for a group: a record of `res.groups`.
pub open spec fn is_group_id(env: ArchEnv, index: XmlIndex, id: Seq<char>) -> bool {
    exists|data: DataView| #[trigger]
        is_meant(env, index, id, data) && (data.kind matches DataKind::Record { model, .. } && model
            == "res.groups"@)
}

/// What an XML ID stands for is what is declared for the module that it names.
pub proof fn meaning_is_declared(env: ArchEnv, index: XmlIndex, id: Seq<char>, data: DataView)
    ensures
        env.stands_for(index, id, data) <==> is_meant(env, index, id, data),
{
    let parts = split_seq(id, '.');
    let key = parts.last();
    occurs_once_or_more(id, '.');
    assert forall|module: SymbolId, k: Seq<char>| #[trigger]
        is_sought(env, id, module, k) <==> env.target(parts) == Some(module) && k == key by {
        if occurs_twice(id, '.') {
            split_in_more(id, '.');
            assert forall|p: int| !#[trigger] only_at(id, '.', p) by {}
        } else if occurs(id, '.') {
            let p = choose|p: int| only_at(id, '.', p);
            split_in_two(id, '.', p);
            let two = seq![id.take(p), id.skip(p + 1)];
            assert(two[0] == id.take(p) && two.last() == id.skip(p + 1));
            assert forall|q: int| #[trigger] only_at(id, '.', q) implies q == p by {}
        } else {
            split_of_one(id, '.');
            assert(seq![id].last() == id);
            assert forall|p: int| !#[trigger] only_at(id, '.', p) by {}
        }
    }
    if env.stands_for(index, id, data) {
        let (file, i) = choose|file: SymbolId, i: int|
            {
                &&& env.handles.contains_key(file)
                &&& index.locations[(env.target(parts)->0, key)].contains(env.handles[file])
                &&& 0 <= i < index.data[(file, key)].len()
                &&& #[trigger] index.data[(file, key)][i] == data
            };
        assert(is_sought(env, id, env.target(parts)->0, key));
        assert(index.data[(file, key)].contains(data));
    }
    if is_meant(env, index, id, data) {
        let (module, k, file) = choose|module: SymbolId, k: Seq<char>, file: SymbolId| #[trigger]
            is_sought(env, id, module, k) && env.handles.contains_key(file)
                && index.locations[(module, k)].contains(env.handles[file])
                && #[trigger] index.data[(file, k)].contains(data);
        let list = index.data[(file, key)];
        let i = choose|i: int| 0 <= i < list.len() && list[i] == data;
        assert(index.data[(file, key)][i] == data);
    }
}

proof fn resolving_is_meaning(env: ArchEnv, index: XmlIndex, id: Seq<char>)
    ensures
        env.resolves(index, id) <==> is_meaningful(env, index, id),
        env.resolves_to_group(index, id) <==> is_group_id(env, index, id),
{
    assert forall|data: DataView| #[trigger]
        env.stands_for(index, id, data) <==> is_meant(env, index, id, data) by {
        meaning_is_declared(env, index, id, data);
    }
    if is_meaningful(env, index, id) {
        let data = choose|data: DataView| #[trigger] is_meant(env, index, id, data);
        assert(env.stands_for(index, id, data));
    }
    if is_group_id(env, index, id) {
        let data = choose|data: DataView| #[trigger]
            is_meant(env, index, id, data) && (data.kind matches DataKind::Record { model, .. }
                && model == "res.groups"@);
        assert(env.stands_for(index, id, data));
    }
    if env.resolves_to_group(index, id) {
        let data = choose|data: DataView| #[trigger]
            env.stands_for(index, id, data) && crate::xml_ids::is_group(data);
        assert(is_meant(env, index, id, data));
    }
}

/// Tells whether a group, which leading `-` negate, stands for no group.
pub open spec fn no_group(env: ArchEnv, index: XmlIndex) -> spec_fn(Seq<char>) -> bool {
    |group: Seq<char>| !is_group_id(env, index, strip_leading(group, '-'))
}

/// Whether an attribute of a `<menuitem>` refers to what is not declared: its action or its
/// parent stands for nothing, or some of its groups for no group.
pub open spec fn refers_to_undeclared(
    env: ArchEnv,
    index: XmlIndex,
    is_submenu: bool,
    attr: XmlAttribute,
    d: DiagnosticView,
) -> bool {
    let value = attr.value@;
    let missing = join_seq(split_seq(value, ',').filter(no_group(env, index)), ',');
    ||| attr.name@ == "action"@ && !is_meaningful(env, index, value) && says(
        d,
        DiagnosticCode::OLS05053,
        seq![value],
        attr.range,
    )
    ||| attr.name@ == "parent"@ && !is_submenu && !is_meaningful(env, index, value) && says(
        d,
        DiagnosticCode::OLS05052,
        seq![value],
        attr.range,
    )
    ||| attr.name@ == "groups"@ && missing.len() > 0 && says(
        d,
        DiagnosticCode::OLS05054,
        seq![missing],
        attr.range,
    )
}

proof fn names_differ()
    ensures
        "action"@ != "parent"@ && "action"@ != "groups"@ && "parent"@ != "groups"@,
        "action"@ != "id"@ && "action"@ != "name"@ && "action"@ != "active"@ && "action"@
            != "sequence"@,
        "parent"@ != "id"@ && "parent"@ != "name"@ && "parent"@ != "active"@ && "parent"@
            != "sequence"@,
        "groups"@ != "id"@ && "groups"@ != "name"@ && "groups"@ != "active"@ && "groups"@
            != "sequence"@,
{
    reveal_strlit("action");
    reveal_strlit("parent");
    reveal_strlit("groups");
    reveal_strlit("id");
    reveal_strlit("name");
    reveal_strlit("active");
    reveal_strlit("sequence");
    assert("action"@.len() == 6 && "parent"@.len() == 6 && "groups"@.len() == 6);
    assert("id"@.len() == 2 && "name"@.len() == 4 && "active"@.len() == 6 && "sequence"@.len()
        == 8);
    assert("action"@[0] == 'a' && "parent"@[0] == 'p' && "groups"@[0] == 'g');
    assert("active"@[0] == 'a' && "active"@[4] == 'v' && "action"@[4] == 'o');
}

proof fn same_filter<T>(s: Seq<T>, p: spec_fn(T) -> bool, q: spec_fn(T) -> bool)
    requires
        forall|x: T| #[trigger] p(x) == q(x),
    ensures
        s.filter(p) == s.filter(q),
    decreases s.len(),
{
    reveal(Seq::filter);
    if s.len() > 0 {
        same_filter(s.drop_last(), p, q);
    }
}

proof fn attribute_reports(
    env: ArchEnv,
    state: ArchState,
    node: XmlNode,
    is_submenu: bool,
    attr: XmlAttribute,
    d: DiagnosticView,
)
    requires
        tells_of_undeclared(d),
    ensures
        reports(
            env.disabled,
            state.diagnostics,
            menuitem_attribute(env, state, node, is_submenu, attr).diagnostics,
            d,
            refers_to_undeclared(env, state.index, is_submenu, attr, d),
        ),
        menuitem_attribute(env, state, node, is_submenu, attr).index == state.index,
{
    let name = attr.name@;
    let value = attr.value@;
    let nested = node.has_attribute("parent"@) || is_submenu;
    names_differ();
    resolving_is_meaning(env, state.index, value);
    if name == "id"@ || name == "name"@ || name == "active"@ {
    } else if name == "sequence"@ {
        emit_reports(env, state, DiagnosticCode::OLS05008, seq![], attr.range, d);
    } else if name == "groups"@ {
        let groups = split_seq(value, ',');
        groups_report(env, state, groups, attr.range, d);
        let after = groups_looked_up(env, state, groups, attr.range);
        let test = |group: Seq<char>| is_missing_group(env, state.index, group);
        let missing = join_seq(groups.filter(test), ',');
        assert forall|group: Seq<char>| #[trigger] test(group) == no_group(env, state.index)(group) by {
            resolving_is_meaning(env, state.index, strip_leading(group, '-'));
        }
        same_filter(groups, test, no_group(env, state.index));
        emit_reports(env, after, DiagnosticCode::OLS05054, seq![missing], attr.range, d);
    } else if name == "action"@ {
        let placed = if nested {
            submenus_refused(env, state, node.children@)
        } else {
            state
        };
        submenus_report(env, state, node.children@, d);
        lookup_reports(env, placed, value, attr.range, d);
        emit_reports(
            env,
            placed.after_lookup(env, value, attr.range),
            DiagnosticCode::OLS05053,
            seq![value],
            attr.range,
            d,
        );
    } else if name == "parent"@ {
        emit_reports(env, state, DiagnosticCode::OLS05012, seq![], attr.range, d);
        lookup_reports(env, state, value, attr.range, d);
        emit_reports(
            env,
            state.after_lookup(env, value, attr.range),
            DiagnosticCode::OLS05052,
            seq![value],
            attr.range,
            d,
        );
    } else if name == "web_icon"@ {
        emit_reports(env, state, DiagnosticCode::OLS05010, seq![], attr.range, d);
    } else {
        emit_reports(env, state, DiagnosticCode::OLS05007, seq![name], attr.range, d);
    }
}

/// Whether an attribute of the element refers to what is not declared.
pub open spec fn has_undeclared(
    env: ArchEnv,
    index: XmlIndex,
    node: XmlNode,
    is_submenu: bool,
    d: DiagnosticView,
) -> bool {
    exists|i: int|
        0 <= i < node.attributes@.len() && refers_to_undeclared(
            env,
            index,
            is_submenu,
            #[trigger] node.attributes@[i],
            d,
        )
}

proof fn attributes_report(
    env: ArchEnv,
    state: ArchState,
    node: XmlNode,
    is_submenu: bool,
    n: int,
    d: DiagnosticView,
)
    requires
        tells_of_undeclared(d),
        0 <= n <= node.attributes@.len(),
    ensures
        reports(
            env.disabled,
            state.diagnostics,
            menuitem_attributes(env, state, node, is_submenu, n).diagnostics,
            d,
            exists|i: int|
                0 <= i < n && refers_to_undeclared(
                    env,
                    state.index,
                    is_submenu,
                    #[trigger] node.attributes@[i],
                    d,
                ),
        ),
        menuitem_attributes(env, state, node, is_submenu, n).index == state.index,
    decreases n,
{
    if n > 0 {
        attributes_report(env, state, node, is_submenu, n - 1, d);
        attribute_reports(
            env,
            menuitem_attributes(env, state, node, is_submenu, n - 1),
            node,
            is_submenu,
            node.attributes@[n - 1],
            d,
        );
        if exists|i: int|
            0 <= i < n - 1 && refers_to_undeclared(
                env,
                state.index,
                is_submenu,
                #[trigger] node.attributes@[i],
                d,
            ) {
            let i = choose|i: int|
                0 <= i < n - 1 && refers_to_undeclared(
                    env,
                    state.index,
                    is_submenu,
                    #[trigger] node.attributes@[i],
                    d,
                );
            assert(0 <= i < n);
        }
    }
}

proof fn registered_reports(
    env: ArchEnv,
    state: ArchState,
    node: XmlNode,
    id: Option<Seq<char>>,
    d: DiagnosticView,
)
    requires
        tells_of_undeclared(d),
    ensures
        forall|data: DataView|
            reports(
                env.disabled,
                state.diagnostics,
                (#[trigger] state.register(env, id, node.range, data)).diagnostics,
                d,
                false,
            ),
{
    if id is Some {
        emit_reports(env, state, DiagnosticCode::OLS05051, seq![id->0], node.range, d);
    }
}

/// Whether a menu item, or one of those in it, refers to what is not declared when it is loaded:
/// each is held against what is declared by then.
pub open spec fn menu_meets_undeclared(
    env: ArchEnv,
    state: ArchState,
    node: XmlNode,
    is_submenu: bool,
    d: DiagnosticView,
) -> bool
    decreases node,
{
    has_undeclared(env, state.index, node, is_submenu, d) || submenus_meet_undeclared(
        env,
        state,
        node.children@,
        d,
    )
}

/// The same for the menu items among the children of one, in order.
pub open spec fn submenus_meet_undeclared(
    env: ArchEnv,
    state: ArchState,
    children: Seq<XmlNode>,
    d: DiagnosticView,
) -> bool
    decreases children,
{
    children.len() > 0 && (submenus_meet_undeclared(env, state, children.drop_last(), d) || (
    is_tagged(children.last(), "menuitem"@) && menu_meets_undeclared(
        env,
        menuitem_children(env, state, children.drop_last()),
        children.last(),
        true,
        d,
    )))
}

/// Whether a menu item below a root refers to what is not declared when it is loaded.
pub open spec fn roots_meet_undeclared(
    env: ArchEnv,
    state: ArchState,
    children: Seq<XmlNode>,
    tag: Seq<char>,
    d: DiagnosticView,
) -> bool
    decreases children,
{
    children.len() > 0 && (roots_meet_undeclared(env, state, children.drop_last(), tag, d) || {
        let before = root_children(env, state, children.drop_last(), tag);
        let child = children.last();
        match role_in_root(child) {
            Some(Role::Menu(_)) => menu_meets_undeclared(env, before, child, false, d),
            Some(Role::Root) => roots_meet_undeclared(
                env,
                before,
                child.children@,
                child.tag_name(),
                d,
            ),
            _ => false,
        }
    })
}

/// What menu items refer to does not depend on what was reported.
proof fn reports_do_not_matter(
    env: ArchEnv,
    a: ArchState,
    b: ArchState,
    children: Seq<XmlNode>,
)
    requires
        a.index == b.index,
    ensures
        menuitem_children(env, a, children).index == menuitem_children(env, b, children).index,
    decreases children,
{
    if children.len() > 0 {
        let front = children.drop_last();
        reports_do_not_matter(env, a, b, front);
        if children.last().tag_name() == "menuitem"@ {
            menu_reports_do_not_matter(
                env,
                menuitem_children(env, a, front),
                menuitem_children(env, b, front),
                children.last(),
                true,
            );
        }
    }
}

proof fn menu_reports_do_not_matter(
    env: ArchEnv,
    a: ArchState,
    b: ArchState,
    node: XmlNode,
    is_submenu: bool,
)
    requires
        a.index == b.index,
    ensures
        menuitem_loaded(env, a, node, is_submenu).index == menuitem_loaded(
            env,
            b,
            node,
            is_submenu,
        ).index,
    decreases node,
{
    let n = node.attributes@.len() as int;
    let id = last_named(node.attributes@, "id"@);
    attributes_keep_index(env, a, node, is_submenu, n);
    attributes_keep_index(env, b, node, is_submenu, n);
    let x = menuitem_attributes(env, a, node, is_submenu, n);
    let y = menuitem_attributes(env, b, node, is_submenu, n);
    let p = if id is None {
        x.emit(env, DiagnosticCode::OLS05006, seq![], node.range)
    } else {
        x
    };
    let q = if id is None {
        y.emit(env, DiagnosticCode::OLS05006, seq![], node.range)
    } else {
        y
    };
    reports_do_not_matter(env, p, q, node.children@);
}

proof fn attributes_keep_index(
    env: ArchEnv,
    state: ArchState,
    node: XmlNode,
    is_submenu: bool,
    n: int,
)
    ensures
        menuitem_attributes(env, state, node, is_submenu, n).index == state.index,
    decreases n,
{
    if n > 0 {
        attributes_keep_index(env, state, node, is_submenu, n - 1);
        let before = menuitem_attributes(env, state, node, is_submenu, n - 1);
        let attr = node.attributes@[n - 1];
        groups_report(env, before, split_seq(attr.value@, ','), attr.range, arbitrary());
        submenus_report(env, before, node.children@, arbitrary());
    }
}

proof fn meeting_goes_by_index(
    env: ArchEnv,
    a: ArchState,
    b: ArchState,
    children: Seq<XmlNode>,
    d: DiagnosticView,
)
    requires
        a.index == b.index,
    ensures
        submenus_meet_undeclared(env, a, children, d) == submenus_meet_undeclared(
            env,
            b,
            children,
            d,
        ),
    decreases children,
{
    if children.len() > 0 {
        let front = children.drop_last();
        meeting_goes_by_index(env, a, b, front, d);
        reports_do_not_matter(env, a, b, front);
        meeting_goes_by_index(
            env,
            menuitem_children(env, a, front),
            menuitem_children(env, b, front),
            children.last().children@,
            d,
        );
        assert(menu_meets_undeclared(
            env,
            menuitem_children(env, a, front),
            children.last(),
            true,
            d,
        ) == menu_meets_undeclared(
            env,
            menuitem_children(env, b, front),
            children.last(),
            true,
            d,
        ));
    }
}

proof fn submenus_report_undeclared(
    env: ArchEnv,
    state: ArchState,
    children: Seq<XmlNode>,
    d: DiagnosticView,
)
    requires
        tells_of_undeclared(d),
    ensures
        reports(
            env.disabled,
            state.diagnostics,
            menuitem_children(env, state, children).diagnostics,
            d,
            submenus_meet_undeclared(env, state, children, d),
        ),
    decreases children,
{
    if children.len() > 0 {
        let front = children.drop_last();
        let child = children.last();
        let before = menuitem_children(env, state, front);
        submenus_report_undeclared(env, state, front, d);
        reveal_strlit("menuitem");
        assert("menuitem"@.len() == 8);
        if child.kind == NodeKind::Element && child.tag_name() == "menuitem"@ {
            menu_reports_undeclared(env, before, child, true, d);
        } else {
            emit_reports(
                env,
                before,
                DiagnosticCode::OLS05011,
                seq![child.tag_name()],
                child.range,
                d,
            );
        }
    }
}

proof fn menu_reports_undeclared(
    env: ArchEnv,
    state: ArchState,
    node: XmlNode,
    is_submenu: bool,
    d: DiagnosticView,
)
    requires
        tells_of_undeclared(d),
    ensures
        reports(
            env.disabled,
            state.diagnostics,
            menuitem_loaded(env, state, node, is_submenu).diagnostics,
            d,
            menu_meets_undeclared(env, state, node, is_submenu, d),
        ),
    decreases node,
{
    let n = node.attributes@.len() as int;
    let id = last_named(node.attributes@, "id"@);
    let attributes = menuitem_attributes(env, state, node, is_submenu, n);
    attributes_report(env, state, node, is_submenu, n, d);
    emit_reports(env, attributes, DiagnosticCode::OLS05006, seq![], node.range, d);
    let identified = if id is None {
        attributes.emit(env, DiagnosticCode::OLS05006, seq![], node.range)
    } else {
        attributes
    };
    submenus_report_undeclared(env, identified, node.children@, d);
    meeting_goes_by_index(env, identified, state, node.children@, d);
    registered_reports(env, menuitem_children(env, identified, node.children@), node, id, d);
}

proof fn root_children_report_undeclared(
    env: ArchEnv,
    state: ArchState,
    children: Seq<XmlNode>,
    tag: Seq<char>,
    d: DiagnosticView,
)
    requires
        tells_of_undeclared(d),
    ensures
        reports(
            env.disabled,
            state.diagnostics,
            root_children(env, state, children, tag).diagnostics,
            d,
            roots_meet_undeclared(env, state, children, tag, d),
        ),
    decreases children,
{
    if children.len() > 0 {
        let front = children.drop_last();
        let child = children.last();
        let before = root_children(env, state, front, tag);
        root_children_report_undeclared(env, state, front, tag, d);
        if child.kind == NodeKind::Element {
            match role_in_root(child) {
                Some(Role::Root) => {
                    let n = child.attributes@.len() as int;
                    let inside = before.with(
                        root_attributes(env.disabled, before.diagnostics, child, n),
                    );
                    root_attributes_silent(env.disabled, before.diagnostics, child, n, d);
                    root_children_report_undeclared(
                        env,
                        inside,
                        child.children@,
                        child.tag_name(),
                        d,
                    );
                    roots_go_by_index(env, inside, before, child.children@, child.tag_name(), d);
                    assert(root_loaded(env, before, child) == root_children(
                        env,
                        inside,
                        child.children@,
                        child.tag_name(),
                    ));
                },
                Some(Role::Menu(_)) => {
                    menu_reports_undeclared(env, before, child, false, d);
                },
                Some(Role::Record) => {
                    record_reports(env, before, child, d);
                    record_gives_no_undeclared(env, child, d);
                },
                Some(Role::Template) => {
                    template_reports(env, before, child, d);
                    leaf_gives_no_undeclared(env, child, Role::Template, d);
                },
                Some(Role::Delete) => {
                    delete_reports(env, before, child, d);
                    leaf_gives_no_undeclared(env, child, Role::Delete, d);
                },
                Some(Role::Function) => {
                    function_reports(env, before.diagnostics, child, d);
                    function_gives_no_undeclared(env, child, d);
                },
                Some(Role::Report) => {
                    report_reports(env, before.diagnostics, child, d);
                    leaf_gives_no_undeclared(env, child, Role::Report, d);
                },
                _ => {
                    emit_reports(
                        env,
                        before,
                        DiagnosticCode::OLS05005,
                        seq![child.tag_name(), tag],
                        child.range,
                        d,
                    );
                },
            }
        }
    }
}

proof fn root_attributes_silent(
    disabled: Set<DiagnosticCode>,
    found: Seq<DiagnosticView>,
    node: XmlNode,
    n: int,
    d: DiagnosticView,
)
    requires
        tells_of_undeclared(d),
        0 <= n <= node.attributes@.len(),
    ensures
        root_attributes(disabled, found, node, n).contains(d) <==> found.contains(d),
{
    root_attributes_are_known(disabled, found, node, n, d);
}

proof fn roots_go_by_index(
    env: ArchEnv,
    a: ArchState,
    b: ArchState,
    children: Seq<XmlNode>,
    tag: Seq<char>,
    d: DiagnosticView,
)
    requires
        a.index == b.index,
    ensures
        roots_meet_undeclared(env, a, children, tag, d) == roots_meet_undeclared(
            env,
            b,
            children,
            tag,
            d,
        ),
        root_children(env, a, children, tag).index == root_children(env, b, children, tag).index,
    decreases children,
{
    if children.len() > 0 {
        let front = children.drop_last();
        let child = children.last();
        roots_go_by_index(env, a, b, front, tag, d);
        let x = root_children(env, a, front, tag);
        let y = root_children(env, b, front, tag);
        match role_in_root(child) {
            Some(Role::Root) => {
                let n = child.attributes@.len() as int;
                let p = x.with(root_attributes(env.disabled, x.diagnostics, child, n));
                let q = y.with(root_attributes(env.disabled, y.diagnostics, child, n));
                roots_go_by_index(env, p, q, child.children@, child.tag_name(), d);
                roots_go_by_index(env, x, y, child.children@, child.tag_name(), d);
                assert(root_loaded(env, x, child).index == root_loaded(env, y, child).index);
            },
            Some(Role::Menu(_)) => {
                menu_reports_do_not_matter(env, x, y, child, false);
                meeting_goes_by_index(env, x, y, child.children@, d);
                assert(menu_meets_undeclared(env, x, child, false, d) == menu_meets_undeclared(
                    env,
                    y,
                    child,
                    false,
                    d,
                ));
            },
            Some(Role::Record) => {
                record_goes_by_index(env, x, y, child);
            },
            _ => {},
        }
    }
}

proof fn record_goes_by_index(env: ArchEnv, a: ArchState, b: ArchState, node: XmlNode)
    requires
        a.index == b.index,
    ensures
        record_loaded(env, a, node).index == record_loaded(env, b, node).index,
    decreases node,
{
    let n = node.attributes@.len() as int;
    let x = a.with(record_attributes(env.disabled, a.diagnostics, node, n));
    let y = b.with(record_attributes(env.disabled, b.diagnostics, node, n));
    record_children_go_by_index(env, x, y, node.children@);
}

proof fn record_children_go_by_index(
    env: ArchEnv,
    a: ArchState,
    b: ArchState,
    children: Seq<XmlNode>,
)
    requires
        a.index == b.index,
    ensures
        record_children(env, a, children).index == record_children(env, b, children).index,
    decreases children,
{
    if children.len() > 0 {
        let front = children.drop_last();
        let child = children.last();
        record_children_go_by_index(env, a, b, front);
        let x = record_children(env, a, front);
        let y = record_children(env, b, front);
        let n = child.attributes@.len() as int;
        let p = x.with(
            field_attributes(
                env.disabled,
                field_type_rules(env.disabled, x.diagnostics, child),
                child,
                n,
            ),
        );
        let q = y.with(
            field_attributes(
                env.disabled,
                field_type_rules(env.disabled, y.diagnostics, child),
                child,
                n,
            ),
        );
        field_children_go_by_index(
            env,
            p,
            q,
            child.children@,
            is_list_field(child) || is_markup_field(child),
        );
        assert(field_loaded(env, x, child).index == field_loaded(env, y, child).index);
    }
}

proof fn field_children_go_by_index(
    env: ArchEnv,
    a: ArchState,
    b: ArchState,
    children: Seq<XmlNode>,
    free: bool,
)
    requires
        a.index == b.index,
    ensures
        field_children(env, a, children, free).index == field_children(
            env,
            b,
            children,
            free,
        ).index,
    decreases children,
{
    if children.len() > 0 {
        let front = children.drop_last();
        field_children_go_by_index(env, a, b, front, free);
        record_goes_by_index(
            env,
            field_children(env, a, front, free),
            field_children(env, b, front, free),
            children.last(),
        );
    }
}

/// Loading a file reports that a menu item refers to what is not declared if and only if, when
/// that item is loaded, its action or its parent stands for nothing or some of its groups are
/// none.
pub proof fn undeclared_is_reported_exactly(
    env: ArchEnv,
    state: ArchState,
    root: XmlNode,
    d: DiagnosticView,
)
    requires
        tells_of_undeclared(d),
    ensures
        root_loaded(env, state, root).diagnostics.contains(d) <==> state.diagnostics.contains(d)
            || !env.disabled.contains(d.code) && roots_meet_undeclared(
            env,
            state,
            root.children@,
            root.tag_name(),
            d,
        ),
{
    let n = root.attributes@.len() as int;
    let inside = state.with(root_attributes(env.disabled, state.diagnostics, root, n));
    root_attributes_silent(env.disabled, state.diagnostics, root, n, d);
    root_children_report_undeclared(env, inside, root.children@, root.tag_name(), d);
    roots_go_by_index(env, inside, state, root.children@, root.tag_name(), d);
}

} // verus!
