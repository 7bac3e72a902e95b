//! What XML IDs are looked up to, and which fields a record leaves without value.
use vstd::prelude::*;

use crate::constants::SymbolId;
use crate::diagnostics::DiagnosticCode;
use crate::evaluation::{ContextValue, Evaluation};
use crate::finding_laws::{meant_is_before_at, means};
use crate::handles::held;
use crate::listing_laws::filter_keeps_passing;
use crate::model_walk::Entry;
use crate::names::NameEntry;
use crate::fields::FieldMap;
use crate::odoo::{members, members_are_exact, SessionInfo, SyncOdoo};
use crate::symbols::SymbolData;
use crate::text::split_seq;
use crate::text_laws::{occurs, occurs_once_or_more, occurs_twice, only_at, split_in_more, split_in_two, split_of_one};
use crate::xml_arch_builder::XmlArchBuilder;
use crate::xml_data::{DataKind, DataView, OdooDataField};
use crate::xml_ids::{declared_in, is_group, looked_up, lookup_module};
use crate::xml_node::{NodeKind, XmlNode};
use crate::xml_parse::{attribute_views, head, kept, kept_all, listing, FlatView};
use crate::xml_validation::{is_mandatory, is_set, mandatory_left, mandatory_names, mandatory_of, unset};

verus! {

/// Whether an ID that is written in a file is looked up in the module under the key.
pub open spec fn is_looked_up_in(
    odoo: SyncOdoo,
    file: SymbolId,
    id: Seq<char>,
    module: SymbolId,
    key: Seq<char>,
) -> bool {
    ||| !occurs(id, '.') && key == id && odoo.symbols@[file as int]->0.module == Some(module)
    ||| exists|p: int, i: int| #[trigger]
        only_at(id, '.', p) && #[trigger] odoo.modules.first(id.take(p), i) && key == id.skip(p + 1)
            && module == odoo.modules.entries@[i].value
}

/// Whether the module knows that the symbol at `file` declares the key.
pub open spec fn is_located(
    odoo: SyncOdoo,
    module: SymbolId,
    key: Seq<char>,
    file: SymbolId,
) -> bool {
    let locations = odoo.symbols@[module as int]->0.data->Module_0.xml_id_locations;
    &&& odoo.is_module(module)
    &&& file < odoo.symbols.len() && odoo.symbols@[file as int] is Some
    &&& exists|i: int| #[trigger]
        locations.first(key, i) && held(locations.entries@[i].value).contains(
            odoo.symbols@[file as int]->0.handle,
        )
}

/// Whether the file declares the data under the key.
pub open spec fn is_declared_under(
    odoo: SyncOdoo,
    file: SymbolId,
    key: Seq<char>,
    data: DataView,
) -> bool {
    let ids = odoo.symbols@[file as int]->0.data->XmlFile_0.xml_ids;
    &&& odoo.is_xml_file(file)
    &&& exists|i: int, j: int| #[trigger]
        ids.first(key, i) && 0 <= j < ids.entries@[i].value@.len()
            && #[trigger] ids.entries@[i].value@[j]@ == data
}

proof fn parts_of_lookup(
    odoo: SyncOdoo,
    file: SymbolId,
    id: Seq<char>,
    module: SymbolId,
    key: Seq<char>,
)
    ensures
        is_looked_up_in(odoo, file, id, module, key) <==> lookup_module(
            odoo,
            file,
            split_seq(id, '.'),
        ) == Some(module) && key == split_seq(id, '.').last(),
{
    occurs_once_or_more(id, '.');
    if occurs_twice(id, '.') {
        split_in_more(id, '.');
        assert forall|p: int| !#[trigger] only_at(id, '.', p) by {}
    } else if occurs(id, '.') {
        let p = choose|p: int| only_at(id, '.', p);
        split_in_two(id, '.', p);
        let two = seq![id.take(p), id.skip(p + 1)];
        assert(two[0] == id.take(p) && two.last() == id.skip(p + 1));
        assert forall|q: int| #[trigger] only_at(id, '.', q) implies q == p by {}
        let name = id.take(p);
        assert forall|i: int| #[trigger] odoo.modules.first(name, i) implies odoo.modules.has(name)
            && odoo.modules.value(name) == odoo.modules.entries@[i].value by {
            odoo.modules.first_decides(name, i);
        }
        if odoo.modules.has(name) {
            let i = choose|i: int| odoo.modules.first(name, i);
            assert(only_at(id, '.', p) && odoo.modules.first(name, i));
        }
    } else {
        split_of_one(id, '.');
        assert(seq![id].last() == id);
        assert forall|p: int| !#[trigger] only_at(id, '.', p) by {}
    }
}

proof fn located_is_held(odoo: SyncOdoo, module: SymbolId, key: Seq<char>, file: SymbolId)
    ensures
        is_located(odoo, module, key, file) <==> odoo.live(file) && odoo.locations(
            module,
            key,
        ).contains(odoo.sym(file).handle),
{
    let locations = odoo.sym(module).data->Module_0.xml_id_locations;
    assert forall|i: int| #[trigger] locations.first(key, i) implies locations.has(key)
        && locations.value(key) == locations.entries@[i].value by {
        locations.first_decides(key, i);
    }
    if locations.has(key) {
        let i = choose|i: int| locations.first(key, i);
        assert(locations.first(key, i));
    }
}

proof fn declared_is_under(odoo: SyncOdoo, file: SymbolId, key: Seq<char>, data: DataView)
    ensures
        odoo.declared(file, key).contains(data) <==> is_declared_under(odoo, file, key, data),
{
    let ids = odoo.sym(file).data->XmlFile_0.xml_ids;
    let list = odoo.declared(file, key);
    assert forall|i: int| #[trigger] ids.first(key, i) implies ids.has(key) && ids.value(key)
        == ids.entries@[i].value by {
        ids.first_decides(key, i);
    }
    if list.contains(data) {
        let j = choose|j: int| 0 <= j < list.len() && list[j] == data;
        let i = choose|i: int| ids.first(key, i);
        assert(ids.first(key, i));
        assert(ids.entries@[i].value@[j]@ == data);
    }
    if is_declared_under(odoo, file, key, data) {
        let (i, j) = choose|i: int, j: int| #[trigger]
            ids.first(key, i) && 0 <= j < ids.entries@[i].value@.len()
                && #[trigger] ids.entries@[i].value@[j]@ == data;
        assert(list[j] == data);
    }
}

proof fn declared_by_some(odoo: SyncOdoo, files: Seq<SymbolId>, key: Seq<char>, data: DataView)
    ensures
        declared_in(odoo, files, key).contains(data) <==> exists|k: int|
            0 <= k < files.len() && odoo.declared(#[trigger] files[k], key).contains(data),
    decreases files.len(),
{
    if files.len() > 0 {
        let front = files.drop_last();
        let n = files.len() - 1;
        let a = declared_in(odoo, front, key);
        let b = odoo.declared(files.last(), key);
        declared_by_some(odoo, front, key, data);
        assert(files[n] == files.last());
        assert forall|k: int| 0 <= k < front.len() implies front[k] == #[trigger] files[k] by {}
        if a.contains(data) {
            let i = choose|i: int| 0 <= i < a.len() && a[i] == data;
            assert((a + b)[i] == data);
            let k = choose|k: int|
                0 <= k < front.len() && odoo.declared(#[trigger] front[k], key).contains(data);
            assert(odoo.declared(files[k], key).contains(data));
        }
        if b.contains(data) {
            let i = choose|i: int| 0 <= i < b.len() && b[i] == data;
            assert((a + b)[a.len() + i] == data);
        }
        if (a + b).contains(data) {
            let i = choose|i: int| 0 <= i < (a + b).len() && (a + b)[i] == data;
            if i < a.len() {
                assert(a[i] == data);
            } else {
                assert(b[i - a.len()] == data);
            }
        }
    }
}

/// An ID stands for what the files declare under its key that the module which it is looked up in
/// knows to declare it; and for nothing else. Of the groups among that, all and only the records
/// of `res.groups` count.
pub proof fn lookup_finds_declared(
    odoo: SyncOdoo,
    file: SymbolId,
    id: Seq<char>,
    data: DataView,
)
    ensures
        looked_up(odoo, file, id).contains(data) <==> exists|
            module: SymbolId,
            key: Seq<char>,
            other: SymbolId,
        | #[trigger]
            is_looked_up_in(odoo, file, id, module, key) && #[trigger] is_located(
                odoo,
                module,
                key,
                other,
            ) && is_declared_under(odoo, other, key, data),
        looked_up(odoo, file, id).filter(|d: DataView| is_group(d)).contains(data) <==> looked_up(
            odoo,
            file,
            id,
        ).contains(data) && (data.kind matches DataKind::Record { model, .. } && model
            == "res.groups"@),
{
    let parts = split_seq(id, '.');
    let key = parts.last();
    let all = looked_up(odoo, file, id);
    filter_keeps_passing(all, |d: DataView| is_group(d), data);
    assert(odoo.symbols@.len() == odoo.symbols.len());
    if lookup_module(odoo, file, parts) is Some {
        let module = lookup_module(odoo, file, parts)->0;
        let set = odoo.locations(module, key);
        let files = members(odoo.symbols@, set);
        members_are_exact(odoo.symbols@, set);
        declared_by_some(odoo, files, key, data);
        parts_of_lookup(odoo, file, id, module, key);
        if all.contains(data) {
            let k = choose|k: int|
                0 <= k < files.len() && odoo.declared(#[trigger] files[k], key).contains(data);
            assert(files.contains(files[k]));
            located_is_held(odoo, module, key, files[k]);
            declared_is_under(odoo, files[k], key, data);
            assert(is_looked_up_in(odoo, file, id, module, key) && is_located(
                odoo,
                module,
                key,
                files[k],
            ));
        }
    }
    if exists|m: SymbolId, k: Seq<char>, other: SymbolId| #[trigger]
        is_looked_up_in(odoo, file, id, m, k) && #[trigger] is_located(odoo, m, k, other)
            && is_declared_under(odoo, other, k, data) {
        let (m, k, other) = choose|m: SymbolId, k: Seq<char>, other: SymbolId| #[trigger]
            is_looked_up_in(odoo, file, id, m, k) && #[trigger] is_located(odoo, m, k, other)
                && is_declared_under(odoo, other, k, data);
        parts_of_lookup(odoo, file, id, m, k);
        located_is_held(odoo, m, k, other);
        declared_is_under(odoo, other, k, data);
        let files = members(odoo.symbols@, odoo.locations(m, k));
        members_are_exact(odoo.symbols@, odoo.locations(m, k));
        assert(files.contains(other));
        let i = choose|i: int| 0 <= i < files.len() && files[i] == other;
        assert(odoo.declared(files[i], k).contains(data));
        declared_by_some(odoo, files, k, data);
    }
}

/// The inferred types of the symbol at `id`, if it is a variable or a function.
pub open spec fn is_evaluated_as(odoo: SyncOdoo, id: SymbolId, evals: Seq<Evaluation>) -> bool {
    &&& id < odoo.symbols.len()
    &&& odoo.symbols@[id as int] matches Some(symbol) && match symbol.data {
        SymbolData::Variable(v) => evals == v.evaluations@,
        SymbolData::Function(f) => evals == f.evaluations@,
        _ => false,
    }
}

/// Whether the field at `id` has to be given a value: one of its evaluations says that it is
/// required, and none carries a default.
pub open spec fn has_to_be_given(odoo: SyncOdoo, id: SymbolId) -> bool {
    exists|evals: Seq<Evaluation>| #[trigger]
        is_evaluated_as(odoo, id, evals) && (exists|i: int|
            0 <= i < evals.len() && (#[trigger] evals[i]).symbol.context.has("required"@)
                && evals[i].symbol.context.value("required"@) == ContextValue::BOOLEAN(true))
            && forall|i: int|
            0 <= i < evals.len() ==> !(#[trigger] evals[i]).symbol.context.has("default"@)
}

proof fn mandatory_is_given(odoo: SyncOdoo, id: SymbolId)
    ensures
        is_mandatory(odoo, id) == has_to_be_given(odoo, id),
{
    let evals = crate::xml_validation::evaluations_of(odoo, id);
    if is_mandatory(odoo, id) {
        let i = choose|i: int|
            0 <= i < evals.len() && crate::xml_validation::says_required(#[trigger] evals[i]);
        assert(is_evaluated_as(odoo, id, evals));
        assert(evals[i].symbol.context.has("required"@));
    }
    if has_to_be_given(odoo, id) {
        let other = choose|evals: Seq<Evaluation>| #[trigger]
            is_evaluated_as(odoo, id, evals) && (exists|i: int|
                0 <= i < evals.len() && (#[trigger] evals[i]).symbol.context.has("required"@)
                    && evals[i].symbol.context.value("required"@) == ContextValue::BOOLEAN(true))
                && forall|i: int|
                0 <= i < evals.len() ==> !(#[trigger] evals[i]).symbol.context.has("default"@);
        assert(other == evals);
        let i = choose|i: int|
            0 <= i < evals.len() && (#[trigger] evals[i]).symbol.context.has("required"@)
                && evals[i].symbol.context.value("required"@) == ContextValue::BOOLEAN(true);
        assert(crate::xml_validation::says_required(evals[i]));
    }
}

proof fn mandatory_among(odoo: SyncOdoo, name: Seq<char>, fields: Seq<Entry>, x: Seq<char>)
    ensures
        mandatory_of(odoo, name, fields).contains(x) <==> x == name && exists|k: int|
            0 <= k < fields.len() && (#[trigger] fields[k]).1 is None && has_to_be_given(
                odoo,
                fields[k].0,
            ),
    decreases fields.len(),
{
    if fields.len() > 0 {
        let front = fields.drop_last();
        let last = fields.last();
        let n = fields.len() - 1;
        let before = mandatory_of(odoo, name, front);
        mandatory_among(odoo, name, front, x);
        mandatory_is_given(odoo, last.0);
        assert(fields[n] == last);
        assert forall|k: int| 0 <= k < front.len() implies front[k] == #[trigger] fields[k] by {}
        if before.contains(x) {
            let i = choose|i: int| 0 <= i < before.len() && before[i] == x;
            assert(before.push(name)[i] == x);
            let k = choose|k: int|
                0 <= k < front.len() && (#[trigger] front[k]).1 is None && has_to_be_given(
                    odoo,
                    front[k].0,
                );
            assert(fields[k].1 is None);
        }
        assert(before.push(name)[before.len() as int] == name);
    }
}

/// Whether the entries hold, under the name, a field that can be used as it is and has to be
/// given a value.
pub open spec fn holds_required(
    odoo: SyncOdoo,
    entries: Seq<NameEntry<Vec<Entry>>>,
    name: Seq<char>,
) -> bool {
    exists|i: int, k: int|
        0 <= i < entries.len() && entries[i].name@ == name && 0 <= k < entries[i].value@.len() && (
        #[trigger] entries[i].value@[k]).1 is None && has_to_be_given(
            odoo,
            entries[i].value@[k].0,
        )
}

proof fn mandatory_names_hold(
    odoo: SyncOdoo,
    entries: Seq<NameEntry<Vec<Entry>>>,
    name: Seq<char>,
)
    ensures
        mandatory_names(odoo, entries).contains(name) <==> holds_required(odoo, entries, name),
    decreases entries.len(),
{
    if entries.len() > 0 {
        let front = entries.drop_last();
        let last = entries.last();
        let n = entries.len() - 1;
        let a = mandatory_names(odoo, front);
        let b = mandatory_of(odoo, last.name@, last.value@);
        mandatory_names_hold(odoo, front, name);
        mandatory_among(odoo, last.name@, last.value@, name);
        assert(entries[n] == last);
        assert forall|i: int| 0 <= i < front.len() implies front[i] == #[trigger] entries[i] by {}
        if a.contains(name) {
            let i = choose|i: int| 0 <= i < a.len() && a[i] == name;
            assert((a + b)[i] == name);
            let (j, k) = choose|j: int, k: int|
                0 <= j < front.len() && front[j].name@ == name && 0 <= k < front[j].value@.len() && (
                #[trigger] front[j].value@[k]).1 is None && has_to_be_given(
                    odoo,
                    front[j].value@[k].0,
                );
            assert(entries[j].value@[k].1 is None);
        }
        if b.contains(name) {
            let i = choose|i: int| 0 <= i < b.len() && b[i] == name;
            assert((a + b)[a.len() + i] == name);
            let k = choose|k: int|
                0 <= k < last.value@.len() && (#[trigger] last.value@[k]).1 is None
                    && has_to_be_given(odoo, last.value@[k].0);
            assert(entries[n].value@[k].1 is None);
        }
        if (a + b).contains(name) {
            let i = choose|i: int| 0 <= i < (a + b).len() && (a + b)[i] == name;
            if i < a.len() {
                assert(a[i] == name);
            } else {
                assert(b[i - a.len()] == name);
            }
        }
        if holds_required(odoo, entries, name) {
            let (j, k) = choose|j: int, k: int|
                0 <= j < entries.len() && entries[j].name@ == name && 0 <= k
                    < entries[j].value@.len() && (#[trigger] entries[j].value@[k]).1 is None
                    && has_to_be_given(odoo, entries[j].value@[k].0);
            if j < n {
                assert(front[j].value@[k].1 is None);
            } else {
                assert(last.value@[k].1 is None);
            }
        }
    }
}

/// A record leaves a mandatory field without value if and only if the model has a field of the
/// name that can be used as it is, is required and has no default, and no field of the record
/// means that name.
pub proof fn left_out_is_mandatory(
    odoo: SyncOdoo,
    known: FieldMap,
    fields: Seq<OdooDataField>,
    name: Seq<char>,
)
    ensures
        mandatory_left(odoo, known, fields).contains(name) <==> holds_required(
            odoo,
            known.entries@,
            name,
        ) && forall|i: int|
            0 <= i < fields.len() ==> !means(odoo, (#[trigger] fields[i]).name@, name),
{
    let all = mandatory_names(odoo, known.entries@);
    mandatory_names_hold(odoo, known.entries@, name);
    filter_keeps_passing(all, unset(odoo, fields), name);
    assert(unset(odoo, fields)(name) == !is_set(odoo, fields, name));
    if is_set(odoo, fields, name) {
        let i = choose|i: int|
            0 <= i < fields.len() && crate::xml_validation::meant_field(
                odoo,
                (#[trigger] fields[i]).name@,
            ) == name;
        meant_is_before_at(odoo, fields[i].name@);
        assert(means(odoo, fields[i].name@, name));
    } else {
        assert forall|i: int| 0 <= i < fields.len() implies !means(
            odoo,
            (#[trigger] fields[i]).name@,
            name,
        ) by {
            meant_is_before_at(odoo, fields[i].name@);
        }
    }
}

/// A tree keeps of a node its kind, tag, attributes and place, and the characters of texts and
/// comments.
pub proof fn tree_keeps_nodes(nodes: Seq<FlatView>, i: int)
    requires
        0 <= i < nodes.len(),
    ensures
        ({
            let x = kept_all(nodes)[i];
            let y = nodes[i];
            &&& x.depth == y.depth && x.kind == y.kind && x.tag == y.tag && x.attributes
                == y.attributes && x.range == y.range
            &&& (y.kind == NodeKind::Text || y.kind == NodeKind::Comment) && y.content is Some
                ==> x.content == y.content
        }),
        kept_all(nodes).len() == nodes.len(),
{
}

/// The root of a tree is the first node of its listing.
pub proof fn root_comes_first(root: XmlNode, nodes: Seq<FlatView>)
    requires
        nodes.len() > 0,
        listing(root, nodes[0].depth) == kept_all(nodes),
    ensures
        root.kind == nodes[0].kind,
        root.tag@ == nodes[0].tag,
        root.range == nodes[0].range,
        root.attributes@.len() == nodes[0].attributes.len(),
        forall|i: int|
            0 <= i < root.attributes@.len() ==> (#[trigger] root.attributes@[i])@
                == nodes[0].attributes[i],
        (root.kind == NodeKind::Text || root.kind == NodeKind::Comment) && nodes[0].content is Some
            ==> root.content@ == nodes[0].content->0,
{
    let first = listing(root, nodes[0].depth)[0];
    assert(first == head(root, nodes[0].depth));
    assert(kept_all(nodes)[0] == kept(nodes[0]));
    assert(attribute_views(root.attributes@) == nodes[0].attributes);
    assert forall|i: int| 0 <= i < root.attributes@.len() implies (#[trigger] root.attributes@[i])@
        == nodes[0].attributes[i] by {
        assert(attribute_views(root.attributes@)[i] == root.attributes@[i]@);
    }
}

/// What loading goes by is what the session knows: the codes that are switched off, the symbols
/// that are there, the modules by name, and the file with its module. Only files of the project
/// register their IDs.
pub proof fn loading_goes_by_session(builder: XmlArchBuilder, session: SessionInfo)
    ensures
        ({
            let odoo = session.sync_odoo;
            let env = builder.env(session);
            &&& forall|code: DiagnosticCode| #[trigger]
                env.disabled.contains(code) <==> session.disabled_codes@.contains(code)
            &&& forall|id: SymbolId| #[trigger]
                env.handles.contains_key(id) <==> id < odoo.symbols.len()
                    && odoo.symbols@[id as int] is Some
            &&& forall|id: SymbolId| #[trigger]
                env.handles.contains_key(id) ==> env.handles[id]
                    == odoo.symbols@[id as int]->0.handle
            &&& forall|name: Seq<char>, i: int| #[trigger]
                odoo.modules.first(name, i) ==> env.modules.contains_key(name) && env.modules[name]
                    == odoo.modules.entries@[i].value
            &&& forall|name: Seq<char>| #[trigger]
                env.modules.contains_key(name) ==> exists|i: int| #[trigger]
                    odoo.modules.first(name, i)
            &&& env.file == builder.xml_symbol
            &&& env.module == odoo.symbols@[builder.xml_symbol as int]->0.module
            &&& env.registers == builder.is_in_main_ep
        }),
{
    reveal(SyncOdoo::handle_map);
    reveal(SyncOdoo::module_map);
    let odoo = session.sync_odoo;
    assert forall|name: Seq<char>, i: int| #[trigger]
        odoo.modules.first(name, i) implies builder.env(session).modules.contains_key(name)
        && builder.env(session).modules[name] == odoo.modules.entries@[i].value by {
        odoo.modules.first_decides(name, i);
    }
}

/// The index of declarations is what the files and modules hold.
pub proof fn index_is_held(
    odoo: SyncOdoo,
    file: SymbolId,
    module: SymbolId,
    key: Seq<char>,
    data: DataView,
)
    ensures
        odoo.xml_index().data[(file, key)].contains(data) <==> is_declared_under(
            odoo,
            file,
            key,
            data,
        ),
        is_located(odoo, module, key, file) <==> file < odoo.symbols.len()
            && odoo.symbols@[file as int] is Some && odoo.xml_index().locations[(
            module,
            key,
        )].contains(odoo.symbols@[file as int]->0.handle),
{
    reveal(SyncOdoo::xml_index);
    declared_is_under(odoo, file, key, data);
    located_is_held(odoo, module, key, file);
    assert(odoo.xml_index().data[(file, key)] == odoo.declared(file, key));
    assert(odoo.xml_index().locations[(module, key)] == odoo.locations(module, key));
}

} // verus!
