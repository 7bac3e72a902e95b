//! What loading an XML data file declares, element by element.
use vstd::prelude::*;

use crate::constants::SymbolId;
use crate::handles::Handle;
use crate::loading_laws::{attribute_is_first, carries, first_is_first, last_is_last, has_before, has_first, has_last, is_proper, is_tagged, role_in, role_in_root, Role};
use crate::text::split_seq;
use crate::text_laws::{occurs, occurs_once_or_more, occurs_twice, only_at, split_in_more, split_in_two, split_of_one};
use crate::xml_arch_builder_rng_validation::{delete_loaded, field_attributes, field_children, field_loaded, field_of, field_type_rules, function_rules, groups_looked_up, is_list_field, is_markup_field, is_proper_field, last_named, last_text, menuitem_attribute, menuitem_attributes, menuitem_children, menuitem_loaded, named, record_attributes, record_children, record_fields, record_loaded, report_rules, root_attributes, root_children, root_loaded, submenus_refused, template_loaded, value_attribute_count};
use crate::xml_data::{DataKind, DataView, FieldView};
use crate::xml_ids::{with_name, ArchEnv, ArchState, XmlIndex};
use crate::xml_node::{NodeKind, XmlNode};

verus! {

/// A declaration, with the module and the ID without module that it is declared for.
pub type Declared = (SymbolId, Seq<char>, DataView);

/// Whether an ID is declared for the module under the key: one without a dot for the file's
/// module, one with a dot for the module before the dot, if that is known, else for the file's.
pub open spec fn stored_as(env: ArchEnv, id: Seq<char>, module: SymbolId, key: Seq<char>) -> bool {
    ||| !occurs(id, '.') && key == id && module == env.module->0
    ||| exists|p: int| #[trigger]
        only_at(id, '.', p) && key == id.skip(p + 1) && module == if env.modules.contains_key(
            id.take(p),
        ) {
            env.modules[id.take(p)]
        } else {
            env.module->0
        }
}

/// Whether the last text among the nodes is the one at `i`.
pub open spec fn last_text_at(children: Seq<XmlNode>, i: int) -> bool {
    &&& 0 <= i < children.len()
    &&& children[i].kind == NodeKind::Text
    &&& forall|j: int| i < j < children.len() ==> (#[trigger] children[j]).kind != NodeKind::Text
}

/// Whether there is no text among the nodes.
pub open spec fn is_textless(children: Seq<XmlNode>) -> bool {
    forall|j: int| 0 <= j < children.len() ==> (#[trigger] children[j]).kind != NodeKind::Text
}

/// Whether the text of a field is that of its last child that is a text.
pub open spec fn is_text_of(node: XmlNode, field: FieldView) -> bool {
    ||| exists|i: int| #[trigger]
        last_text_at(node.children@, i) && field.text == Some(node.children@[i].content@)
            && field.text_range == Some(node.children@[i].range)
    ||| field.text is None && field.text_range is None && is_textless(node.children@)
}

/// Whether the reference of a field is that of its first `ref` attribute.
pub open spec fn is_ref_of(node: XmlNode, field: FieldView) -> bool {
    ||| exists|i: int|
        0 <= i < node.attributes@.len() && (#[trigger] node.attributes@[i]).name@ == "ref"@
            && !has_before(node, i, "ref"@) && field.ref_key == Some(
            (node.attributes@[i].value@, node.attributes@[i].range),
        )
    ||| !carries(node, "ref"@) && field.ref_key is None
}

/// Whether a `<field>` stands for the field of a record.
pub open spec fn is_field_of(node: XmlNode, field: FieldView) -> bool {
    &&& is_tagged(node, "field"@) && is_proper(node)
    &&& has_first(node, "name"@, field.name)
    &&& field.range == node.range
    &&& is_text_of(node, field)
    &&& is_ref_of(node, field)
}

/// Whether the fields are those of the proper `<field>`s among the children, in order: the one at
/// `k` is that of the child at `places[k]`.
pub open spec fn fields_at(
    children: Seq<XmlNode>,
    fields: Seq<FieldView>,
    places: Seq<int>,
) -> bool {
    &&& places.len() == fields.len()
    &&& forall|k: int|
        0 <= k < places.len() ==> 0 <= #[trigger] places[k] < children.len() && is_field_of(
            children[places[k]],
            fields[k],
        )
    &&& forall|k: int, l: int|
        0 <= k < l < places.len() ==> #[trigger] places[k] < #[trigger] places[l]
    &&& forall|i: int| #[trigger] holds_field_at(children, i) ==> places.contains(i)
}

/// Whether the child at `i` is a proper `<field>`.
pub open spec fn holds_field_at(children: Seq<XmlNode>, i: int) -> bool {
    0 <= i < children.len() && is_tagged(children[i], "field"@) && is_proper(children[i])
}

/// Whether the first attribute called `model` has this value, written at this place.
pub open spec fn is_model_of(
    node: XmlNode,
    model: Seq<char>,
    range: std::ops::Range<usize>,
) -> bool {
    exists|i: int|
        0 <= i < node.attributes@.len() && (#[trigger] node.attributes@[i]).name@ == "model"@
            && !has_before(node, i, "model"@) && node.attributes@[i].value@ == model
            && node.attributes@[i].value_range == range
}

/// Whether an element that is loaded as `role` declares data of the kind.
pub open spec fn is_kind_of(node: XmlNode, role: Role, kind: DataKind) -> bool {
    match role {
        Role::Menu(_) => kind == DataKind::MenuItem,
        Role::Template => kind == DataKind::Template,
        Role::Delete => kind matches DataKind::Delete { model } && has_first(
            node,
            "model"@,
            model,
        ),
        Role::Record => kind matches DataKind::Record { model, model_range, fields } && is_model_of(
            node,
            model,
            model_range,
        ) && exists|places: Seq<int>| #[trigger] fields_at(node.children@, fields, places),
        _ => false,
    }
}

/// Whether the element has the ID: of records and menu items the last one counts, of templates
/// and deletions the first.
pub open spec fn is_id_of(node: XmlNode, role: Role, id: Seq<char>) -> bool {
    match role {
        Role::Menu(_) => has_last(node, "id"@, id),
        Role::Record => has_last(node, "id"@, id),
        _ => has_first(node, "id"@, id),
    }
}

/// Whether an element itself declares something, loaded as `role`: it has an ID with at most one
/// dot, and the file belongs to a module of the project.
pub open spec fn itself_declares(env: ArchEnv, node: XmlNode, role: Role, t: Declared) -> bool {
    &&& env.registers && env.module is Some
    &&& t.2.file_symbol == env.file
    &&& t.2.range == node.range
    &&& t.2.xml_id matches Some(id) && is_id_of(node, role, id) && stored_as(env, id, t.0, t.1)
    &&& is_kind_of(node, role, t.2.kind)
}

/// What the children of an element declare, as far as they are loaded.
pub open spec fn declared_among(
    env: ArchEnv,
    node: XmlNode,
    role: Role,
    children: Seq<XmlNode>,
) -> Set<Declared>
    decreases children,
{
    if children.len() == 0 {
        Set::empty()
    } else {
        let front = declared_among(env, node, role, children.drop_last());
        match role_in(node, role, children.last()) {
            Some(inner) => front.union(declared_with(env, children.last(), inner)),
            None => front,
        }
    }
}

/// What an element that is loaded as `role` declares, itself and by what stands in it.
pub open spec fn declared_with(env: ArchEnv, node: XmlNode, role: Role) -> Set<Declared>
    decreases node,
{
    Set::new(|t: Declared| itself_declares(env, node, role, t)).union(
        declared_among(env, node, role, node.children@),
    )
}

/// Whether `b` is `a` with exactly these declarations added, all of them of the loaded file.
pub open spec fn indexes(env: ArchEnv, a: XmlIndex, b: XmlIndex, new: Set<Declared>) -> bool {
    &&& forall|key: Seq<char>, data: DataView| #[trigger]
        b.data[(env.file, key)].contains(data) <==> a.data[(env.file, key)].contains(data)
            || exists|module: SymbolId| #[trigger] new.contains((module, key, data))
    &&& forall|module: SymbolId, key: Seq<char>, handle: Handle| #[trigger]
        b.locations[(module, key)].contains(handle) <==> a.locations[(module, key)].contains(handle)
            || handle == env.handles[env.file] && exists|data: DataView| #[trigger]
            new.contains((module, key, data))
    &&& forall|key: Seq<char>| #[trigger]
        b.names[env.file].contains(key) <==> a.names[env.file].contains(key) || exists|
            module: SymbolId,
            data: DataView,
        | #[trigger] new.contains((module, key, data))
}

proof fn nothing_indexed(env: ArchEnv, a: XmlIndex)
    ensures
        indexes(env, a, a, Set::empty()),
{
}

proof fn indexes_compose(
    env: ArchEnv,
    a: XmlIndex,
    b: XmlIndex,
    c: XmlIndex,
    s: Set<Declared>,
    t: Set<Declared>,
)
    requires
        indexes(env, a, b, s),
        indexes(env, b, c, t),
    ensures
        indexes(env, a, c, s.union(t)),
{
    let u = s.union(t);
    assert forall|key: Seq<char>, data: DataView| #[trigger]
        c.data[(env.file, key)].contains(data) <==> a.data[(env.file, key)].contains(data)
            || exists|module: SymbolId| #[trigger] u.contains((module, key, data)) by {
        assert(b.data[(env.file, key)].contains(data) <==> a.data[(env.file, key)].contains(data)
            || exists|module: SymbolId| #[trigger] s.contains((module, key, data)));
        assert(forall|module: SymbolId| #[trigger]
            u.contains((module, key, data)) <==> s.contains((module, key, data)) || t.contains(
                (module, key, data),
            ));
        if exists|module: SymbolId| #[trigger] s.contains((module, key, data)) {
            let module = choose|module: SymbolId| #[trigger] s.contains((module, key, data));
            assert(u.contains((module, key, data)));
        }
        if exists|module: SymbolId| #[trigger] t.contains((module, key, data)) {
            let module = choose|module: SymbolId| #[trigger] t.contains((module, key, data));
            assert(u.contains((module, key, data)));
        }
    }
    assert forall|module: SymbolId, key: Seq<char>, handle: Handle| #[trigger]
        c.locations[(module, key)].contains(handle) <==> a.locations[(module, key)].contains(handle)
            || handle == env.handles[env.file] && exists|data: DataView| #[trigger]
            u.contains((module, key, data)) by {
        assert(b.locations[(module, key)].contains(handle) <==> a.locations[(
            module,
            key,
        )].contains(handle) || handle == env.handles[env.file] && exists|data: DataView| #[trigger]
            s.contains((module, key, data)));
        assert(forall|data: DataView| #[trigger]
            u.contains((module, key, data)) <==> s.contains((module, key, data)) || t.contains(
                (module, key, data),
            ));
        if exists|data: DataView| #[trigger] s.contains((module, key, data)) {
            let data = choose|data: DataView| #[trigger] s.contains((module, key, data));
            assert(u.contains((module, key, data)));
        }
        if exists|data: DataView| #[trigger] t.contains((module, key, data)) {
            let data = choose|data: DataView| #[trigger] t.contains((module, key, data));
            assert(u.contains((module, key, data)));
        }
    }
    assert forall|key: Seq<char>| #[trigger]
        c.names[env.file].contains(key) <==> a.names[env.file].contains(key) || exists|
            module: SymbolId,
            data: DataView,
        | #[trigger] u.contains((module, key, data)) by {
        assert(b.names[env.file].contains(key) <==> a.names[env.file].contains(key) || exists|
            module: SymbolId,
            data: DataView,
        | #[trigger] s.contains((module, key, data)));
        assert(forall|module: SymbolId, data: DataView| #[trigger]
            u.contains((module, key, data)) <==> s.contains((module, key, data)) || t.contains(
                (module, key, data),
            ));
        if exists|module: SymbolId, data: DataView| #[trigger] s.contains((module, key, data)) {
            let (module, data) = choose|module: SymbolId, data: DataView| #[trigger]
                s.contains((module, key, data));
            assert(u.contains((module, key, data)));
        }
        if exists|module: SymbolId, data: DataView| #[trigger] t.contains((module, key, data)) {
            let (module, data) = choose|module: SymbolId, data: DataView| #[trigger]
                t.contains((module, key, data));
            assert(u.contains((module, key, data)));
        }
    }
}

/// An ID with at most one dot is stored by its parts.
proof fn parts_store(env: ArchEnv, id: Seq<char>, module: SymbolId, key: Seq<char>)
    ensures
        split_seq(id, '.').len() > 2 <==> occurs_twice(id, '.'),
        stored_as(env, id, module, key) <==> split_seq(id, '.').len() <= 2 && key == split_seq(
            id,
            '.',
        ).last() && module == env.owner(split_seq(id, '.')),
{
    occurs_once_or_more(id, '.');
    if occurs_twice(id, '.') {
        split_in_more(id, '.');
        assert forall|p: int| !#[trigger] only_at(id, '.', p) by {}
    } else if occurs(id, '.') {
        let p = choose|p: int| only_at(id, '.', p);
        split_in_two(id, '.', p);
        let parts = seq![id.take(p), id.skip(p + 1)];
        assert(parts[0] == id.take(p) && parts.last() == id.skip(p + 1));
        assert forall|q: int| #[trigger] only_at(id, '.', q) implies q == p by {}
    } else {
        split_of_one(id, '.');
        assert(seq![id].last() == id);
        assert forall|p: int| !#[trigger] only_at(id, '.', p) by {}
    }
}

proof fn pushed<T>(s: Seq<T>, x: T, e: T)
    ensures
        s.push(x).contains(e) <==> s.contains(e) || e == x,
{
    if s.contains(e) {
        let i = choose|i: int| 0 <= i < s.len() && s[i] == e;
        assert(s.push(x)[i] == e);
    }
    assert(s.push(x)[s.len() as int] == x);
}

/// Registering adds the data under its ID, or nothing.
proof fn register_indexes(
    env: ArchEnv,
    state: ArchState,
    id: Option<Seq<char>>,
    range: std::ops::Range<usize>,
    data: DataView,
)
    requires
        data.file_symbol == env.file,
    ensures
        indexes(
            env,
            state.index,
            state.register(env, id, range, data).index,
            Set::new(
                |t: Declared|
                    env.registers && env.module is Some && id is Some && t.2 == data && stored_as(
                        env,
                        id->0,
                        t.0,
                        t.1,
                    ),
            ),
        ),
{
    let new = Set::new(
        |t: Declared|
            env.registers && env.module is Some && id is Some && t.2 == data && stored_as(
                env,
                id->0,
                t.0,
                t.1,
            ),
    );
    let a = state.index;
    let b = state.register(env, id, range, data).index;
    let active = env.registers && env.module is Some && id is Some;
    let parts = split_seq(id->0, '.');
    if !active || parts.len() > 2 {
        assert forall|t: Declared| !new.contains(t) by {
            parts_store(env, id->0, t.0, t.1);
        }
        assert(new =~= Set::empty());
    } else {
        let module = env.owner(parts);
        let key = parts.last();
        assert forall|t: Declared| #[trigger] new.contains(t) <==> t == (module, key, data) by {
            parts_store(env, id->0, t.0, t.1);
        }
        assert(DataView { file_symbol: env.file, ..data } == data);
        assert(new.contains((module, key, data)));
        assert forall|k: Seq<char>, d: DataView| #[trigger]
            b.data[(env.file, k)].contains(d) <==> a.data[(env.file, k)].contains(d) || exists|
                m: SymbolId,
            | #[trigger] new.contains((m, k, d)) by {
            pushed(a.data[(env.file, key)], data, d);
        }
        assert forall|k: Seq<char>| #[trigger]
            b.names[env.file].contains(k) <==> a.names[env.file].contains(k) || exists|
                m: SymbolId,
                d: DataView,
            | #[trigger] new.contains((m, k, d)) by {
            pushed(a.names[env.file], key, k);
        }
    }
}

/// The last text among nodes is one with no text behind it.
proof fn last_text_is_last(children: Seq<XmlNode>)
    ensures
        last_text(children) is None <==> is_textless(children),
        forall|i: int| #[trigger]
            last_text_at(children, i) ==> last_text(children) == Some(
                (children[i].content@, children[i].range),
            ),
        last_text(children) is Some ==> exists|i: int| #[trigger] last_text_at(children, i),
    decreases children.len(),
{
    if children.len() > 0 {
        let front = children.drop_last();
        let n = children.len() - 1;
        last_text_is_last(front);
        assert(children[n] == children.last());
        if children.last().kind == NodeKind::Text {
            assert(last_text_at(children, n));
            assert forall|i: int| #[trigger] last_text_at(children, i) implies i == n by {
                if i < n {
                    assert(children[n].kind != NodeKind::Text);
                }
            }
        } else {
            assert forall|i: int| last_text_at(front, i) <==> #[trigger] last_text_at(
                children,
                i,
            ) by {
                if last_text_at(front, i) {
                    assert(children[i] == front[i]);
                    assert forall|j: int| i < j < children.len() implies (
                    #[trigger] children[j]).kind != NodeKind::Text by {
                        if j < n {
                            assert(front[j].kind != NodeKind::Text);
                        }
                    }
                }
                if last_text_at(children, i) {
                    assert(i < n);
                    assert(children[i] == front[i]);
                    assert forall|j: int| i < j < front.len() implies (#[trigger] front[j]).kind
                        != NodeKind::Text by {
                        assert(children[j].kind != NodeKind::Text);
                    }
                }
            }
            if last_text(front) is Some {
                let i = choose|i: int| #[trigger] last_text_at(front, i);
                assert(last_text_at(children, i));
                assert(children[i].kind == NodeKind::Text);
            } else {
                assert forall|j: int| 0 <= j < children.len() implies (#[trigger] children[j]).kind
                    != NodeKind::Text by {
                    if j < n {
                        assert(front[j].kind != NodeKind::Text);
                    }
                }
            }
        }
    }
}

proof fn text_is_last(node: XmlNode, field: FieldView)
    ensures
        is_text_of(node, field) <==> match last_text(node.children@) {
            Some(text) => field.text == Some(text.0) && field.text_range == Some(text.1),
            None => field.text is None && field.text_range is None,
        },
{
    let children = node.children@;
    last_text_is_last(children);
    if last_text(children) is Some {
        let i = choose|i: int| #[trigger] last_text_at(children, i);
        assert(children[i].kind == NodeKind::Text);
        assert(!is_textless(children));
    } else {
        assert forall|i: int| !#[trigger] last_text_at(children, i) by {}
    }
}

proof fn field_is_unique(node: XmlNode, field: FieldView)
    ensures
        is_field_of(node, field) <==> is_proper_field(node) && field == field_of(node),
        is_proper_field(node) <==> is_tagged(node, "field"@) && is_proper(node),
{
    first_is_first(node, "name"@);
    first_is_first(node, "type"@);
    first_is_first(node, "ref"@);
    first_is_first(node, "eval"@);
    first_is_first(node, "search"@);
    reveal_strlit("field");
    assert("field"@.len() > 0);
    assert(is_proper(node) <==> node.has_attribute("name"@) && value_attribute_count(node) <= 1);
    text_is_last(node, field);
    assert(is_ref_of(node, field) <==> field.ref_key == field_of(node).ref_key) by {
        if carries(node, "ref"@) {
            let attr = node.attribute("ref"@)->0;
            let i = choose|i: int|
                0 <= i < node.attributes@.len() && #[trigger] node.attributes@[i] == attr
                    && attr.name@ == "ref"@ && !has_before(node, i, "ref"@);
            assert(node.attributes@[i].name@ == "ref"@);
            assert forall|k: int|
                0 <= k < node.attributes@.len() && (#[trigger] node.attributes@[k]).name@ == "ref"@
                    && !has_before(node, k, "ref"@) implies node.attributes@[k] == attr by {
                attribute_is_first(node, "ref"@, k);
            }
        } else {
            assert forall|k: int| 0 <= k < node.attributes@.len() implies (
            #[trigger] node.attributes@[k]).name@ != "ref"@ by {}
        }
    }
    if is_proper_field(node) {
        assert(has_first(node, "name"@, field.name) <==> field.name
            == node.attribute("name"@)->0.value@);
    }
}

/// The fields of a record are those of its proper `<field>`s, and no others.
proof fn fields_are_unique(children: Seq<XmlNode>, fields: Seq<FieldView>)
    ensures
        (exists|places: Seq<int>| #[trigger] fields_at(children, fields, places)) <==> fields
            == record_fields(children),
    decreases children.len(),
{
    if children.len() == 0 {
        if exists|places: Seq<int>| #[trigger] fields_at(children, fields, places) {
            let places = choose|places: Seq<int>| #[trigger] fields_at(children, fields, places);
            if places.len() > 0 {
                assert(places[0] < 0);
            }
            assert(fields =~= Seq::empty());
        }
        if fields == record_fields(children) {
            assert(fields_at(children, fields, Seq::empty()));
        }
    } else {
        let front = children.drop_last();
        let last = children.last();
        let n = children.len() - 1;
        let some = record_fields(front);
        field_is_unique(last, field_of(last));
        assert(children[n] == last);
        fields_are_unique(front, some);
        let base = choose|places: Seq<int>| #[trigger] fields_at(front, some, places);
        assert(fields_at(front, some, base));
        if fields == record_fields(children) {
            if is_proper_field(last) {
                let places = base.push(n);
                assert forall|k: int| 0 <= k < places.len() implies 0 <= #[trigger] places[k]
                    < children.len() && is_field_of(children[places[k]], fields[k]) by {
                    if k < base.len() {
                        assert(0 <= base[k] < front.len());
                        assert(front[base[k]] == children[base[k]]);
                        assert(fields[k] == some[k]);
                    }
                }
                assert forall|i: int| #[trigger] holds_field_at(children, i) implies places.contains(i) by {
                    if i < n {
                        assert(front[i] == children[i]);
                        assert(holds_field_at(front, i));
                        let k = choose|k: int| 0 <= k < base.len() && base[k] == i;
                        assert(places[k] == i);
                    } else {
                        assert(places[base.len() as int] == i);
                    }
                }
                assert forall|k: int, l: int|
                    0 <= k < l < places.len() implies #[trigger] places[k] < #[trigger] places[l] by {
                    if l < base.len() {
                        assert(base[k] < base[l]);
                    } else {
                        assert(base[k] < front.len());
                    }
                }
                assert(fields_at(children, fields, places));
            } else {
                assert forall|i: int| #[trigger] holds_field_at(children, i) implies base.contains(i) by {
                    assert(i < n);
                    assert(front[i] == children[i]);
                    assert(holds_field_at(front, i));
                }
                assert forall|k: int| 0 <= k < base.len() implies 0 <= #[trigger] base[k]
                    < children.len() && is_field_of(children[base[k]], fields[k]) by {
                    assert(front[base[k]] == children[base[k]]);
                }
                assert(fields_at(children, fields, base));
            }
        }
        if exists|places: Seq<int>| #[trigger] fields_at(children, fields, places) {
            let places = choose|places: Seq<int>| #[trigger] fields_at(children, fields, places);
            if is_proper_field(last) {
                assert(holds_field_at(children, n));
                assert(places.contains(n));
                let m = places.len() - 1;
                let k = choose|k: int| 0 <= k < places.len() && places[k] == n;
                if k < m {
                    assert(places[k] < places[m]);
                }
                assert(places[m] == n);
                let fewer = fields.drop_last();
                let before = places.drop_last();
                assert forall|j: int| 0 <= j < before.len() implies 0 <= #[trigger] before[j]
                    < front.len() && is_field_of(front[before[j]], fewer[j]) by {
                    assert(places[j] < places[m]);
                    assert(front[places[j]] == children[places[j]]);
                    assert(fewer[j] == fields[j]);
                }
                assert forall|j: int, l: int|
                    0 <= j < l < before.len() implies #[trigger] before[j] < #[trigger] before[l] by {
                    assert(places[j] < places[l]);
                }
                assert forall|i: int| #[trigger] holds_field_at(front, i) implies before.contains(i) by {
                    assert(front[i] == children[i]);
                    assert(holds_field_at(children, i));
                    assert(places.contains(i));
                    let j = choose|j: int| 0 <= j < places.len() && places[j] == i;
                    assert(before[j] == i);
                }
                assert(fields_at(front, fewer, before));
                fields_are_unique(front, fewer);
                field_is_unique(last, fields[m]);
                assert(is_field_of(children[places[m]], fields[m]));
                assert(fields =~= some.push(field_of(last)));
            } else {
                assert forall|j: int| 0 <= j < places.len() implies 0 <= #[trigger] places[j]
                    < front.len() && is_field_of(front[places[j]], fields[j]) by {
                    field_is_unique(last, fields[j]);
                    if places[j] == n {
                        assert(is_field_of(children[places[j]], fields[j]));
                    }
                    assert(front[places[j]] == children[places[j]]);
                }
                assert forall|i: int| #[trigger] holds_field_at(front, i) implies places.contains(i) by {
                    assert(front[i] == children[i]);
                    assert(holds_field_at(children, i));
                }
                assert(fields_at(front, fields, places));
                fields_are_unique(front, fields);
            }
        }
    }
}

/// What an element itself declares is what is registered for it.
proof fn itself_is_registered(
    env: ArchEnv,
    node: XmlNode,
    role: Role,
    id: Option<Seq<char>>,
    data: DataView,
)
    requires
        role is Menu || role == Role::Record || role == Role::Template || role == Role::Delete,
        id == if role is Menu || role == Role::Record {
            last_named(node.attributes@, "id"@)
        } else {
            node.attribute_value("id"@)
        },
        data.file_symbol == env.file,
        data.range == node.range,
        data.xml_id == id,
        forall|kind: DataKind| #[trigger] is_kind_of(node, role, kind) <==> kind == data.kind,
    ensures
        Set::new(|t: Declared| itself_declares(env, node, role, t)) == Set::new(
            |t: Declared|
                env.registers && env.module is Some && id is Some && t.2 == data && stored_as(
                    env,
                    id->0,
                    t.0,
                    t.1,
                ),
        ),
{
    first_is_first(node, "id"@);
    last_is_last(node, "id"@);
    let a = Set::new(|t: Declared| itself_declares(env, node, role, t));
    let b = Set::new(
        |t: Declared|
            env.registers && env.module is Some && id is Some && t.2 == data && stored_as(
                env,
                id->0,
                t.0,
                t.1,
            ),
    );
    assert forall|t: Declared| a.contains(t) <==> b.contains(t) by {
        assert(is_kind_of(node, role, t.2.kind) <==> t.2.kind == data.kind);
        if a.contains(t) {
            let own = t.2.xml_id->0;
            assert(is_id_of(node, role, own));
            assert(id == Some(own));
        }
        if b.contains(t) {
            assert(is_id_of(node, role, id->0));
        }
    }
    assert(a =~= b);
}

/// Elements of these roles declare nothing, and nothing that stands in them does.
proof fn silent_declares_nothing(env: ArchEnv, node: XmlNode, role: Role)
    requires
        role == Role::Function || role == Role::Value || role == Role::Report,
    ensures
        declared_with(env, node, role) == Set::<Declared>::empty(),
    decreases node,
{
    silent_children_declare_nothing(env, node, role, node.children@);
    assert(declared_with(env, node, role) =~= Set::<Declared>::empty());
}

proof fn silent_children_declare_nothing(
    env: ArchEnv,
    node: XmlNode,
    role: Role,
    children: Seq<XmlNode>,
)
    requires
        role == Role::Function || role == Role::Value || role == Role::Report,
    ensures
        declared_among(env, node, role, children) == Set::<Declared>::empty(),
    decreases children,
{
    if children.len() > 0 {
        silent_children_declare_nothing(env, node, role, children.drop_last());
        match role_in(node, role, children.last()) {
            Some(inner) => {
                silent_declares_nothing(env, children.last(), inner);
            },
            None => {},
        }
        assert(declared_among(env, node, role, children) =~= Set::<Declared>::empty());
    }
}

/// What stands in a record without model, or in a field that is not proper, is not loaded.
proof fn unloaded_declare_nothing(
    env: ArchEnv,
    node: XmlNode,
    role: Role,
    children: Seq<XmlNode>,
)
    requires
        (role == Role::Record && !carries(node, "model"@)) || (role == Role::Field && !is_proper(
            node,
        )) || role == Role::Template || role == Role::Delete,
    ensures
        declared_among(env, node, role, children) == Set::<Declared>::empty(),
    decreases children.len(),
{
    if children.len() > 0 {
        unloaded_declare_nothing(env, node, role, children.drop_last());
    }
}

proof fn menu_attributes_keep_index(
    env: ArchEnv,
    state: ArchState,
    node: XmlNode,
    is_submenu: bool,
    n: int,
)
    ensures
        menuitem_attributes(env, state, node, is_submenu, n).index == state.index,
    decreases n,
{
    if n > 0 {
        menu_attributes_keep_index(env, state, node, is_submenu, n - 1);
        let before = menuitem_attributes(env, state, node, is_submenu, n - 1);
        let attr = node.attributes@[n - 1];
        groups_keep_index(env, before, split_seq(attr.value@, ','), attr.range);
        submenus_keep_index(env, before, node.children@);
    }
}

proof fn groups_keep_index(
    env: ArchEnv,
    state: ArchState,
    groups: Seq<Seq<char>>,
    range: std::ops::Range<usize>,
)
    ensures
        groups_looked_up(env, state, groups, range).index == state.index,
    decreases groups.len(),
{
    if groups.len() > 0 {
        groups_keep_index(env, state, groups.drop_last(), range);
    }
}

proof fn submenus_keep_index(env: ArchEnv, state: ArchState, children: Seq<XmlNode>)
    ensures
        submenus_refused(env, state, children).index == state.index,
    decreases children.len(),
{
    if children.len() > 0 {
        submenus_keep_index(env, state, children.drop_last());
    }
}

proof fn tags_hold_something()
    ensures
        "menuitem"@.len() > 0 && "record"@.len() > 0 && "field"@.len() > 0,
        "record"@ != "value"@,
{
    reveal_strlit("menuitem");
    reveal_strlit("record");
    reveal_strlit("field");
    reveal_strlit("value");
    assert("menuitem"@.len() == 8 && "field"@.len() == 5);
    assert("record"@.len() == 6 && "value"@.len() == 5);
}

proof fn menu_children_index(
    env: ArchEnv,
    state: ArchState,
    node: XmlNode,
    is_submenu: bool,
    children: Seq<XmlNode>,
)
    ensures
        indexes(
            env,
            state.index,
            menuitem_children(env, state, children).index,
            declared_among(env, node, Role::Menu(is_submenu), children),
        ),
    decreases children,
{
    if children.len() == 0 {
        nothing_indexed(env, state.index);
    } else {
        let front = children.drop_last();
        let child = children.last();
        let before = menuitem_children(env, state, front);
        menu_children_index(env, state, node, is_submenu, front);
        tags_hold_something();
        if child.kind == NodeKind::Element && child.tag_name() == "menuitem"@ {
            menu_indexes(env, before, child, true);
            indexes_compose(
                env,
                state.index,
                before.index,
                menuitem_loaded(env, before, child, true).index,
                declared_among(env, node, Role::Menu(is_submenu), front),
                declared_with(env, child, Role::Menu(true)),
            );
        }
    }
}

proof fn menu_indexes(env: ArchEnv, state: ArchState, node: XmlNode, is_submenu: bool)
    ensures
        indexes(
            env,
            state.index,
            menuitem_loaded(env, state, node, is_submenu).index,
            declared_with(env, node, Role::Menu(is_submenu)),
        ),
    decreases node,
{
    let role = Role::Menu(is_submenu);
    let n = node.attributes@.len() as int;
    let id = last_named(node.attributes@, "id"@);
    menu_attributes_keep_index(env, state, node, is_submenu, n);
    let attributes = menuitem_attributes(env, state, node, is_submenu, n);
    let identified = if id is None {
        attributes.emit(env, crate::diagnostics::DiagnosticCode::OLS05006, seq![], node.range)
    } else {
        attributes
    };
    menu_children_index(env, identified, node, is_submenu, node.children@);
    let inside = menuitem_children(env, identified, node.children@);
    let data = DataView {
        file_symbol: env.file,
        xml_id: id,
        range: node.range,
        kind: DataKind::MenuItem,
    };
    register_indexes(env, inside, id, node.range, data);
    itself_is_registered(env, node, role, id, data);
    let own = Set::new(|t: Declared| itself_declares(env, node, role, t));
    let below = declared_among(env, node, role, node.children@);
    indexes_compose(
        env,
        state.index,
        inside.index,
        menuitem_loaded(env, state, node, is_submenu).index,
        below,
        own,
    );
    assert(below.union(own) =~= own.union(below));
}

proof fn field_children_index(
    env: ArchEnv,
    state: ArchState,
    node: XmlNode,
    children: Seq<XmlNode>,
    free: bool,
)
    requires
        is_proper(node),
    ensures
        indexes(
            env,
            state.index,
            field_children(env, state, children, free).index,
            declared_among(env, node, Role::Field, children),
        ),
    decreases children,
{
    if children.len() == 0 {
        nothing_indexed(env, state.index);
    } else {
        let front = children.drop_last();
        let child = children.last();
        let before = field_children(env, state, front, free);
        field_children_index(env, state, node, front, free);
        tags_hold_something();
        if child.tag_name() == "record"@ {
            record_indexes(env, before, child);
            indexes_compose(
                env,
                state.index,
                before.index,
                record_loaded(env, before, child).index,
                declared_among(env, node, Role::Field, front),
                declared_with(env, child, Role::Record),
            );
        } else if role_in(node, Role::Field, child) is Some {
            silent_declares_nothing(env, child, Role::Value);
            let below = declared_among(env, node, Role::Field, front);
            assert(below.union(Set::empty()) =~= below);
        }
    }
}

proof fn field_indexes(env: ArchEnv, state: ArchState, node: XmlNode)
    requires
        is_tagged(node, "field"@),
    ensures
        indexes(
            env,
            state.index,
            field_loaded(env, state, node).index,
            declared_with(env, node, Role::Field),
        ),
    decreases node,
{
    let own = Set::new(|t: Declared| itself_declares(env, node, Role::Field, t));
    let below = declared_among(env, node, Role::Field, node.children@);
    assert(own =~= Set::empty());
    assert(own.union(below) =~= below);
    field_is_unique(node, field_of(node));
    tags_hold_something();
    if is_proper(node) {
        let typed = field_type_rules(env.disabled, state.diagnostics, node);
        let attributes = field_attributes(
            env.disabled,
            typed,
            node,
            node.attributes@.len() as int,
        );
        field_children_index(
            env,
            state.with(attributes),
            node,
            node.children@,
            is_list_field(node) || is_markup_field(node),
        );
    } else {
        unloaded_declare_nothing(env, node, Role::Field, node.children@);
        nothing_indexed(env, state.index);
    }
}

proof fn record_children_index(
    env: ArchEnv,
    state: ArchState,
    node: XmlNode,
    children: Seq<XmlNode>,
)
    requires
        carries(node, "model"@),
    ensures
        indexes(
            env,
            state.index,
            record_children(env, state, children).index,
            declared_among(env, node, Role::Record, children),
        ),
    decreases children,
{
    if children.len() == 0 {
        nothing_indexed(env, state.index);
    } else {
        let front = children.drop_last();
        let child = children.last();
        let before = record_children(env, state, front);
        record_children_index(env, state, node, front);
        tags_hold_something();
        if child.kind == NodeKind::Element && child.tag_name() == "field"@ {
            field_indexes(env, before, child);
            indexes_compose(
                env,
                state.index,
                before.index,
                field_loaded(env, before, child).index,
                declared_among(env, node, Role::Record, front),
                declared_with(env, child, Role::Field),
            );
        }
    }
}

/// The model of a record is that of its first attribute of that name.
proof fn model_is_first(node: XmlNode, model: Seq<char>, range: std::ops::Range<usize>)
    requires
        carries(node, "model"@),
    ensures
        is_model_of(node, model, range) <==> node.attribute("model"@)->0.value@ == model
            && node.attribute("model"@)->0.value_range == range,
{
    first_is_first(node, "model"@);
    let attr = node.attribute("model"@)->0;
    let i = choose|i: int|
        0 <= i < node.attributes@.len() && #[trigger] node.attributes@[i] == attr && attr.name@
            == "model"@ && !has_before(node, i, "model"@);
    assert(node.attributes@[i].name@ == "model"@);
    if is_model_of(node, model, range) {
        let k = choose|k: int|
            0 <= k < node.attributes@.len() && (#[trigger] node.attributes@[k]).name@ == "model"@
                && !has_before(node, k, "model"@) && node.attributes@[k].value@ == model
                && node.attributes@[k].value_range == range;
        attribute_is_first(node, "model"@, k);
    }
}

proof fn record_indexes(env: ArchEnv, state: ArchState, node: XmlNode)
    ensures
        indexes(
            env,
            state.index,
            record_loaded(env, state, node).index,
            declared_with(env, node, Role::Record),
        ),
    decreases node,
{
    let role = Role::Record;
    let n = node.attributes@.len() as int;
    let id = last_named(node.attributes@, "id"@);
    let attributes = state.with(record_attributes(env.disabled, state.diagnostics, node, n));
    let own = Set::new(|t: Declared| itself_declares(env, node, role, t));
    let below = declared_among(env, node, role, node.children@);
    assert(named(node, "model"@) == carries(node, "model"@));
    if !carries(node, "model"@) {
        unloaded_declare_nothing(env, node, role, node.children@);
        assert forall|t: Declared| !own.contains(t) by {
            if own.contains(t) {
                let i = choose|i: int|
                    0 <= i < node.attributes@.len() && (#[trigger] node.attributes@[i]).name@
                        == "model"@ && !has_before(node, i, "model"@);
                assert(carries(node, "model"@));
            }
        }
        assert(own =~= Set::empty());
        assert(own.union(below) =~= Set::empty());
        nothing_indexed(env, state.index);
    } else {
        record_children_index(env, attributes, node, node.children@);
        let inside = record_children(env, attributes, node.children@);
        let data = DataView {
            file_symbol: env.file,
            xml_id: id,
            range: node.range,
            kind: DataKind::Record {
                model: node.attribute("model"@)->0.value@,
                model_range: node.attribute("model"@)->0.value_range,
                fields: record_fields(node.children@),
            },
        };
        assert forall|kind: DataKind| #[trigger] is_kind_of(node, role, kind) <==> kind
            == data.kind by {
            if let DataKind::Record { model, model_range, fields } = kind {
                model_is_first(node, model, model_range);
                fields_are_unique(node.children@, fields);
            }
        }
        register_indexes(env, inside, id, node.range, data);
        itself_is_registered(env, node, role, id, data);
        indexes_compose(
            env,
            state.index,
            inside.index,
            record_loaded(env, state, node).index,
            below,
            own,
        );
        assert(below.union(own) =~= own.union(below));
    }
}

proof fn template_indexes(env: ArchEnv, state: ArchState, node: XmlNode)
    ensures
        indexes(
            env,
            state.index,
            template_loaded(env, state, node).index,
            declared_with(env, node, Role::Template),
        ),
{
    let id = node.attribute_value("id"@);
    let data = DataView {
        file_symbol: env.file,
        xml_id: id,
        range: node.range,
        kind: DataKind::Template,
    };
    let own = Set::new(|t: Declared| itself_declares(env, node, Role::Template, t));
    register_indexes(env, state, id, node.range, data);
    itself_is_registered(env, node, Role::Template, id, data);
    unloaded_declare_nothing(env, node, Role::Template, node.children@);
    assert(own.union(Set::empty()) =~= own);
}

proof fn delete_indexes(env: ArchEnv, state: ArchState, node: XmlNode)
    ensures
        indexes(
            env,
            state.index,
            delete_loaded(env, state, node).index,
            declared_with(env, node, Role::Delete),
        ),
{
    let id = node.attribute_value("id"@);
    let own = Set::new(|t: Declared| itself_declares(env, node, Role::Delete, t));
    first_is_first(node, "model"@);
    unloaded_declare_nothing(env, node, Role::Delete, node.children@);
    assert(own.union(Set::empty()) =~= own);
    if node.has_attribute("model"@) {
        let data = DataView {
            file_symbol: env.file,
            xml_id: id,
            range: node.range,
            kind: DataKind::Delete { model: node.attribute_value("model"@)->0 },
        };
        assert forall|kind: DataKind| #[trigger] is_kind_of(node, Role::Delete, kind) <==> kind
            == data.kind by {
            if let DataKind::Delete { model } = kind {
                assert(has_first(node, "model"@, model) <==> node.attribute_value("model"@) == Some(
                    model,
                ));
            }
        }
        let checked = if id is Some && node.has_attribute("search"@) {
            state.emit(env, crate::diagnostics::DiagnosticCode::OLS05034, seq![], node.range)
        } else if id is None && !node.has_attribute("search"@) {
            state.emit(env, crate::diagnostics::DiagnosticCode::OLS05035, seq![], node.range)
        } else {
            state
        };
        register_indexes(env, checked, id, node.range, data);
        itself_is_registered(env, node, Role::Delete, id, data);
    } else {
        assert forall|t: Declared| !own.contains(t) by {
            if own.contains(t) {
                assert(has_first(node, "model"@, t.2.kind->Delete_model));
            }
        }
        assert(own =~= Set::empty());
        nothing_indexed(env, state.index);
    }
}

proof fn root_children_index(
    env: ArchEnv,
    state: ArchState,
    node: XmlNode,
    children: Seq<XmlNode>,
    tag: Seq<char>,
)
    ensures
        indexes(
            env,
            state.index,
            root_children(env, state, children, tag).index,
            declared_among(env, node, Role::Root, children),
        ),
    decreases children,
{
    if children.len() == 0 {
        nothing_indexed(env, state.index);
    } else {
        let front = children.drop_last();
        let child = children.last();
        let before = root_children(env, state, front, tag);
        let below = declared_among(env, node, Role::Root, front);
        root_children_index(env, state, node, front, tag);
        if child.kind == NodeKind::Element && role_in_root(child) is Some {
            let role = role_in_root(child)->0;
            let after = root_children(env, state, children, tag);
            match role {
                Role::Root => {
                    root_indexes(env, before, child);
                },
                Role::Menu(_) => {
                    menu_indexes(env, before, child, false);
                },
                Role::Record => {
                    record_indexes(env, before, child);
                },
                Role::Template => {
                    template_indexes(env, before, child);
                },
                Role::Delete => {
                    delete_indexes(env, before, child);
                },
                _ => {
                    silent_declares_nothing(env, child, role);
                    nothing_indexed(env, before.index);
                },
            }
            indexes_compose(
                env,
                state.index,
                before.index,
                after.index,
                below,
                declared_with(env, child, role),
            );
        }
    }
}

proof fn root_indexes(env: ArchEnv, state: ArchState, node: XmlNode)
    ensures
        indexes(
            env,
            state.index,
            root_loaded(env, state, node).index,
            declared_with(env, node, Role::Root),
        ),
    decreases node,
{
    let own = Set::new(|t: Declared| itself_declares(env, node, Role::Root, t));
    let below = declared_among(env, node, Role::Root, node.children@);
    assert(own =~= Set::empty());
    assert(own.union(below) =~= below);
    let attributes = state.with(
        root_attributes(
            env.disabled,
            state.diagnostics,
            node,
            node.attributes@.len() as int,
        ),
    );
    root_children_index(env, attributes, node, node.children@, node.tag_name());
}

/// Loading a file declares exactly what its elements declare: every record, menu item, template
/// and deletion in it that is loaded and has an ID with at most one dot, under that ID and for
/// the module that the ID names; and nothing else.
pub proof fn loading_declares_exactly(env: ArchEnv, state: ArchState, root: XmlNode)
    ensures
        indexes(
            env,
            state.index,
            root_loaded(env, state, root).index,
            declared_with(env, root, Role::Root),
        ),
{
    root_indexes(env, state, root);
}

} // verus!
