//! Which classes build a model, and what a module lacks to use them.
use vstd::prelude::*;

use crate::constants::{ModelId, SymbolId};
use crate::fields::{all_fields_of, field_visit, fields_of_class, fields_of_classes, fields_of_entries, named_fields, under, FieldEntry};
use crate::handles::held;
use crate::model_laws::{all_symbols_are_complete, all_symbols_inherits_are_complete, closed_but, complete_but, found, inherits_within, leads_to, leads_within, listed, listed_of, own_symbols_only};
use crate::model_walk::{all_inherits_visit, all_symbols_walk, classes_walk, delegates, entry_of, visit, visit_classes, visit_names, with_entry, with_message, EntryView, Visit, Walk};
use crate::names::NameEntry;
use crate::odoo::{members_are_exact, LogView, SyncOdoo};
use crate::text::texts;

verus! {

/// Whether one of the strings reads `text`.
pub open spec fn mentions(list: Seq<String>, text: Seq<char>) -> bool {
    exists|k: int| 0 <= k < list.len() && (#[trigger] list[k])@ == text
}

/// Whether the module at `from` is the one at `module`, going by their directories, or names it
/// among those that it depends on.
pub open spec fn has_module(odoo: SyncOdoo, from: SymbolId, module: SymbolId) -> bool {
    let own = odoo.symbols@[from as int]->0.data->Module_0;
    let other = odoo.symbols@[module as int]->0.data->Module_0;
    own.dir_name@ == other.dir_name@ || mentions(own.all_depends@, other.dir_name@)
}

/// Whether the symbol at `id` is one of the model's.
pub open spec fn belongs(odoo: SyncOdoo, model: ModelId, id: SymbolId) -> bool {
    &&& model < odoo.models.len()
    &&& id < odoo.symbols.len()
    &&& odoo.symbols@[id as int] is Some
    &&& held(odoo.models@[model as int].symbols).contains(odoo.symbols@[id as int]->0.handle)
}

/// What a module lacks to use the class at `id`: nothing without a module to look from, or if
/// that module has the class's module; else the class's module.
pub open spec fn lacking(odoo: SyncOdoo, from: Option<SymbolId>, id: SymbolId) -> Option<
    Seq<char>,
> {
    let module = odoo.symbols@[id as int]->0.module;
    match from {
        None => None,
        Some(from) => if has_module(odoo, from, module->0) {
            None
        } else {
            Some(odoo.symbols@[module->0 as int]->0.data->Module_0.dir_name@)
        },
    }
}

/// Whether the class at `id` can be listed: it belongs to a module, or none is looked from.
pub open spec fn is_listable(odoo: SyncOdoo, from: Option<SymbolId>, id: SymbolId) -> bool {
    from is None || odoo.symbols@[id as int]->0.module is Some
}

/// Whether the class at `a` inherits from the model `m`.
pub open spec fn inherits_from(odoo: SyncOdoo, a: SymbolId, m: ModelId) -> bool {
    &&& m < odoo.models.len()
    &&& mentions(
        odoo.symbols@[a as int]->0.data->Class_0.model->0.inherit@,
        odoo.models@[m as int].name@,
    )
}

/// Whether the class at `a` delegates to the model `m`.
pub open spec fn delegates_by(odoo: SyncOdoo, a: SymbolId, m: ModelId) -> bool {
    let pairs = odoo.symbols@[a as int]->0.data->Class_0.model->0.inherits@;
    &&& m < odoo.models.len()
    &&& exists|k: int|
        0 <= k < pairs.len() && (#[trigger] pairs[k]).0@ == odoo.models@[m as int].name@
}

/// Whether the class at `a` inherits from the model `m`, or, if `delegated`, delegates to it.
pub open spec fn draws_on(odoo: SyncOdoo, a: SymbolId, m: ModelId, delegated: bool) -> bool {
    inherits_from(odoo, a, m) || delegated && delegates_by(odoo, a, m)
}

/// Whether a set of classes holds those of every model that one of them inherits from, or, if
/// `delegated`, delegates to.
pub open spec fn is_closed(odoo: SyncOdoo, ids: Set<SymbolId>, delegated: bool) -> bool {
    forall|a: SymbolId, m: ModelId, b: SymbolId|
        ids.contains(a) && #[trigger] draws_on(odoo, a, m, delegated) && #[trigger] belongs(
            odoo,
            m,
            b,
        ) ==> ids.contains(b)
}

/// Whether a set holds the classes of a model.
pub open spec fn holds_model(odoo: SyncOdoo, ids: Set<SymbolId>, model: ModelId) -> bool {
    forall|id: SymbolId| #[trigger] belongs(odoo, model, id) ==> ids.contains(id)
}

/// Whether the class at `id` builds the model: it is in every set that holds the model's classes
/// and those of the models that its classes inherit from, or, if `delegated`, delegate to.
pub open spec fn builds(odoo: SyncOdoo, model: ModelId, delegated: bool, id: SymbolId) -> bool {
    forall|ids: Set<SymbolId>|
        holds_model(odoo, ids, model) && #[trigger] is_closed(odoo, ids, delegated)
            ==> ids.contains(id)
}

proof fn mentions_is_contains(list: Seq<String>, text: Seq<char>)
    ensures
        mentions(list, text) == texts(list).contains(text),
{
    if mentions(list, text) {
        let k = choose|k: int| 0 <= k < list.len() && (#[trigger] list[k])@ == text;
        assert(texts(list)[k] == text);
    }
    if texts(list).contains(text) {
        let k = choose|k: int| 0 <= k < texts(list).len() && texts(list)[k] == text;
        assert(list[k]@ == text);
    }
}

/// The classes of a model are the symbols that it holds.
pub proof fn classes_belong(odoo: SyncOdoo, model: ModelId)
    requires
        model < odoo.models.len(),
    ensures
        forall|id: SymbolId| #[trigger]
            odoo.classes(model).contains(id) <==> belongs(odoo, model, id),
{
    assert(odoo.symbols@.len() == odoo.symbols.len());
    members_are_exact(odoo.symbols@, held(odoo.models@[model as int].symbols));
}

/// A module sees itself and those that it depends on.
pub proof fn in_deps_is_listed(odoo: SyncOdoo, from: SymbolId, module: SymbolId)
    ensures
        odoo.in_deps(from, odoo.dir_of(module)) == has_module(odoo, from, module),
{
    mentions_is_contains(
        odoo.sym(from).data->Module_0.all_depends@,
        odoo.sym(module).data->Module_0.dir_name@,
    );
}

proof fn entry_is_lacking(odoo: SyncOdoo, from: Option<SymbolId>, id: SymbolId)
    ensures
        entry_of(odoo, from, id) == if is_listable(odoo, from, id) {
            Some((id, lacking(odoo, from, id)))
        } else {
            None
        },
{
    if from is Some && odoo.sym(id).module is Some {
        in_deps_is_listed(odoo, from->0, odoo.sym(id).module->0);
    }
}

proof fn listed_is_lacking(
    odoo: SyncOdoo,
    from: Option<SymbolId>,
    ids: Seq<SymbolId>,
    e: EntryView,
)
    ensures
        listed(odoo, from, ids, e) <==> ids.contains(e.0) && is_listable(odoo, from, e.0) && e.1
            == lacking(odoo, from, e.0),
{
    if listed(odoo, from, ids, e) {
        let k = choose|k: int|
            0 <= k < ids.len() && entry_of(odoo, from, #[trigger] ids[k]) == Some(e);
        entry_is_lacking(odoo, from, ids[k]);
    }
    if ids.contains(e.0) && is_listable(odoo, from, e.0) && e.1 == lacking(odoo, from, e.0) {
        entry_is_lacking(odoo, from, e.0);
        let k = choose|k: int| 0 <= k < ids.len() && ids[k] == e.0;
        assert(entry_of(odoo, from, ids[k]) == Some(e));
    }
}

/// Whether the models of these names all have their classes in `ids`.
spec fn names_within(odoo: SyncOdoo, ids: Set<SymbolId>) -> Set<Seq<char>> {
    Set::new(
        |name: Seq<char>|
            odoo.model_at(name) is Some ==> holds_model(odoo, ids, odoo.model_at(name)->0),
    )
}

proof fn inherited_is_within(odoo: SyncOdoo, ids: Set<SymbolId>, id: SymbolId, name: Seq<char>)
    requires
        ids.contains(id),
        is_closed(odoo, ids, false),
        texts(odoo.model_data(id).inherit@).contains(name),
    ensures
        names_within(odoo, ids).contains(name),
{
    mentions_is_contains(odoo.model_data(id).inherit@, name);
    if odoo.model_at(name) is Some {
        let m = odoo.model_at(name)->0;
        odoo.model_at_is_first(name);
        assert(draws_on(odoo, id, m, false));
    }
}

proof fn delegated_is_within(odoo: SyncOdoo, ids: Set<SymbolId>, id: SymbolId, name: Seq<char>)
    requires
        ids.contains(id),
        is_closed(odoo, ids, true),
        delegates(odoo.model_data(id).inherits@).contains(name),
    ensures
        names_within(odoo, ids).contains(name),
{
    let pairs = odoo.model_data(id).inherits@;
    let k = choose|k: int| 0 <= k < delegates(pairs).len() && delegates(pairs)[k] == name;
    assert(pairs[k].0@ == name);
    if odoo.model_at(name) is Some {
        let m = odoo.model_at(name)->0;
        odoo.model_at_is_first(name);
        assert(delegates_by(odoo, id, m));
        assert(draws_on(odoo, id, m, true));
    }
}

/// The classes of a model are listed, and no others, each with what the module that is looked
/// from lacks to use it. Classes outside any module cannot be listed for one.
pub proof fn own_classes_are_listed(
    odoo: SyncOdoo,
    from: Option<SymbolId>,
    model: ModelId,
    log: Seq<LogView>,
    e: EntryView,
)
    requires
        model < odoo.models.len(),
    ensures
        all_symbols_walk(odoo, from, false, model, log).entries.contains(e) <==> belongs(
            odoo,
            model,
            e.0,
        ) && is_listable(odoo, from, e.0) && e.1 == lacking(odoo, from, e.0),
{
    classes_belong(odoo, model);
    own_symbols_only(odoo, from, model, log, e);
    listed_is_lacking(odoo, from, odoo.classes(model), e);
}

/// The classes of the model, and of the models called `names`.
spec fn classes_of_names(odoo: SyncOdoo, model: ModelId, names: Set<Seq<char>>) -> Set<SymbolId> {
    Set::new(
        |id: SymbolId|
            belongs(odoo, model, id) || exists|name: Seq<char>|
                #[trigger] names.contains(name) && odoo.model_at(name) is Some && belongs(
                    odoo,
                    odoo.model_at(name)->0,
                    id,
                ),
    )
}

proof fn listed_of_is_lacking(
    odoo: SyncOdoo,
    from: Option<SymbolId>,
    model: ModelId,
    names: Set<Seq<char>>,
    e: EntryView,
)
    requires
        model < odoo.models.len(),
    ensures
        listed(odoo, from, odoo.classes(model), e) || listed_of(odoo, from, Set::empty(), names, e)
            <==> classes_of_names(odoo, model, names).contains(e.0) && is_listable(odoo, from, e.0)
            && e.1 == lacking(odoo, from, e.0),
{
    classes_belong(odoo, model);
    listed_is_lacking(odoo, from, odoo.classes(model), e);
    assert forall|name: Seq<char>| #[trigger]
        names.contains(name) && odoo.model_at(name) is Some implies (listed(
        odoo,
        from,
        odoo.classes(odoo.model_at(name)->0),
        e,
    ) <==> belongs(odoo, odoo.model_at(name)->0, e.0) && is_listable(odoo, from, e.0) && e.1
        == lacking(odoo, from, e.0)) by {
        odoo.model_at_is_first(name);
        classes_belong(odoo, odoo.model_at(name)->0);
        listed_is_lacking(odoo, from, odoo.classes(odoo.model_at(name)->0), e);
    }
    if listed_of(odoo, from, Set::empty(), names, e) {
        let name = choose|name: Seq<char>|
            #[trigger] names.contains(name) && !Set::<Seq<char>>::empty().contains(name)
                && odoo.model_at(name) is Some && listed(
                odoo,
                from,
                odoo.classes(odoo.model_at(name)->0),
                e,
            );
        assert(classes_of_names(odoo, model, names).contains(e.0));
    }
    if classes_of_names(odoo, model, names).contains(e.0) && !belongs(odoo, model, e.0) {
        let name = choose|name: Seq<char>|
            #[trigger] names.contains(name) && odoo.model_at(name) is Some && belongs(
                odoo,
                odoo.model_at(name)->0,
                e.0,
            );
        assert(!Set::<Seq<char>>::empty().contains(name));
    }
}

/// What names the classes of a set of names lead to, are within the set.
spec fn leads_stay(
    odoo: SyncOdoo,
    model: ModelId,
    names: Set<Seq<char>>,
    delegated: bool,
) -> bool {
    forall|a: SymbolId, m: ModelId|
        classes_of_names(odoo, model, names).contains(a) && #[trigger] draws_on(
            odoo,
            a,
            m,
            delegated,
        ) ==> names.contains(odoo.models@[m as int].name@)
}

proof fn built_is_of_names(
    odoo: SyncOdoo,
    model: ModelId,
    names: Set<Seq<char>>,
    delegated: bool,
    id: SymbolId,
)
    requires
        odoo.wf(),
        leads_stay(odoo, model, names, delegated),
        builds(odoo, model, delegated, id),
    ensures
        classes_of_names(odoo, model, names).contains(id),
{
    let ids = classes_of_names(odoo, model, names);
    assert forall|a: SymbolId, m: ModelId, b: SymbolId|
        ids.contains(a) && #[trigger] draws_on(odoo, a, m, delegated) && #[trigger] belongs(
            odoo,
            m,
            b,
        ) implies ids.contains(b) by {
        let name = odoo.models@[m as int].name@;
        assert(names.contains(name));
        odoo.named_is_found(m as int);
    }
    assert(is_closed(odoo, ids, delegated));
    assert(holds_model(odoo, ids, model));
}

proof fn of_names_is_built(
    odoo: SyncOdoo,
    model: ModelId,
    names: Set<Seq<char>>,
    delegated: bool,
    id: SymbolId,
)
    requires
        classes_of_names(odoo, model, names).contains(id),
        forall|ids: Set<SymbolId>|
            holds_model(odoo, ids, model) && #[trigger] is_closed(odoo, ids, delegated)
                ==> names.subset_of(names_within(odoo, ids)),
    ensures
        builds(odoo, model, delegated, id),
{
    assert forall|ids: Set<SymbolId>|
        holds_model(odoo, ids, model) && #[trigger] is_closed(
            odoo,
            ids,
            delegated,
        ) implies ids.contains(id) by {
        if !belongs(odoo, model, id) {
            let name = choose|name: Seq<char>|
                #[trigger] names.contains(name) && odoo.model_at(name) is Some && belongs(
                    odoo,
                    odoo.model_at(name)->0,
                    id,
                );
            assert(names_within(odoo, ids).contains(name));
        }
    }
}

/// With inheritance, the classes that are listed for a model are those of the model and, with
/// every class, those of the models that it inherits from; and no others. Each comes with what
/// the module that is looked from lacks to use it.
pub proof fn inherited_classes_are_listed(
    odoo: SyncOdoo,
    from: Option<SymbolId>,
    model: ModelId,
    log: Seq<LogView>,
    e: EntryView,
)
    requires
        odoo.wf(),
        model < odoo.models.len(),
    ensures
        all_symbols_walk(odoo, from, true, model, log).entries.contains(e) <==> builds(
            odoo,
            model,
            false,
            e.0,
        ) && is_listable(odoo, from, e.0) && e.1 == lacking(odoo, from, e.0),
{
    let seen = all_symbols_walk(odoo, from, true, model, log).seen;
    let own = odoo.classes(model);
    let none = Set::<Seq<char>>::empty();
    all_symbols_are_complete(odoo, from, model, log);
    classes_belong(odoo, model);
    listed_of_is_lacking(odoo, from, model, seen, e);
    assert forall|a: SymbolId, m: ModelId|
        classes_of_names(odoo, model, seen).contains(a) && #[trigger] draws_on(
            odoo,
            a,
            m,
            false,
        ) implies seen.contains(odoo.models@[m as int].name@) by {
        let name = odoo.models@[m as int].name@;
        mentions_is_contains(odoo.model_data(a).inherit@, name);
        if belongs(odoo, model, a) {
            assert(own.contains(a));
            let k = choose|k: int| 0 <= k < own.len() && own[k] == a;
            assert(texts(odoo.model_data(own[k]).inherit@).contains(name));
        } else {
            let n = choose|n: Seq<char>|
                #[trigger] seen.contains(n) && odoo.model_at(n) is Some && belongs(
                    odoo,
                    odoo.model_at(n)->0,
                    a,
                );
            let ids = odoo.classes(odoo.model_at(n)->0);
            odoo.model_at_is_first(n);
            classes_belong(odoo, odoo.model_at(n)->0);
            assert(inherits_within(odoo, ids, seen));
            assert(ids.contains(a));
            let k = choose|k: int| 0 <= k < ids.len() && ids[k] == a;
            assert(texts(odoo.model_data(ids[k]).inherit@).contains(name));
        }
    }
    assert forall|ids: Set<SymbolId>|
        holds_model(odoo, ids, model) && #[trigger] is_closed(
            odoo,
            ids,
            false,
        ) implies seen.subset_of(names_within(odoo, ids)) by {
        let names = names_within(odoo, ids);
        assert forall|k: int, name: Seq<char>|
            0 <= k < own.len() && #[trigger] texts(odoo.model_data(own[k]).inherit@).contains(
                name,
            ) implies names.contains(name) by {
            assert(own.contains(own[k]));
            inherited_is_within(odoo, ids, own[k], name);
        }
        assert forall|n: Seq<char>|
            #[trigger] names.contains(n) && !none.contains(n) && odoo.model_at(
                n,
            ) is Some implies inherits_within(odoo, odoo.classes(odoo.model_at(n)->0), names) by {
            let classes = odoo.classes(odoo.model_at(n)->0);
            odoo.model_at_is_first(n);
            classes_belong(odoo, odoo.model_at(n)->0);
            assert forall|k: int, name: Seq<char>|
                0 <= k < classes.len() && #[trigger] texts(
                    odoo.model_data(classes[k]).inherit@,
                ).contains(name) implies names.contains(name) by {
                assert(classes.contains(classes[k]));
                inherited_is_within(odoo, ids, classes[k], name);
            }
        }
        assert(inherits_within(odoo, own, names) && closed_but(odoo, none, names));
    }
    if builds(odoo, model, false, e.0) {
        built_is_of_names(odoo, model, seen, false, e.0);
    }
    if classes_of_names(odoo, model, seen).contains(e.0) {
        of_names_is_built(odoo, model, seen, false, e.0);
    }
}

/// Along both kinds of inheritance, the classes that are listed for a model are those of the
/// model and, with every class, those of the models that it inherits from or delegates to; and
/// no others. Each comes with what the module that is looked from lacks to use it.
pub proof fn delegated_classes_are_listed(
    odoo: SyncOdoo,
    from: Option<SymbolId>,
    model: ModelId,
    log: Seq<LogView>,
    e: EntryView,
)
    requires
        odoo.wf(),
        model < odoo.models.len(),
    ensures
        ({
            let result = all_inherits_visit(odoo, from, model, log);
            result.main.contains(e) || result.inherits.contains(e) <==> builds(
                odoo,
                model,
                true,
                e.0,
            ) && is_listable(odoo, from, e.0) && e.1 == lacking(odoo, from, e.0)
        }),
{
    let result = all_inherits_visit(odoo, from, model, log);
    let names = result.visited;
    let own = odoo.models@[model as int].name@;
    let none = Set::<Seq<char>>::empty();
    odoo.named_is_found(model as int);
    odoo.model_at_is_first(own);
    all_symbols_inherits_are_complete(odoo, from, model, log);
    assert(found(result, e) <==> listed_of(odoo, from, none, names, e));
    if listed(odoo, from, odoo.classes(model), e) {
        assert(found(result, e));
    }
    listed_of_is_lacking(odoo, from, model, names, e);
    assert forall|a: SymbolId, m: ModelId|
        classes_of_names(odoo, model, names).contains(a) && #[trigger] draws_on(
            odoo,
            a,
            m,
            true,
        ) implies names.contains(odoo.models@[m as int].name@) by {
        let name = odoo.models@[m as int].name@;
        odoo.named_is_found(m as int);
        let n = if belongs(odoo, model, a) {
            own
        } else {
            choose|n: Seq<char>|
                #[trigger] names.contains(n) && odoo.model_at(n) is Some && belongs(
                    odoo,
                    odoo.model_at(n)->0,
                    a,
                )
        };
        let ids = odoo.classes(odoo.model_at(n)->0);
        odoo.model_at_is_first(n);
        classes_belong(odoo, odoo.model_at(n)->0);
        assert(names.contains(n));
        assert(leads_within(odoo, ids, names));
        assert(ids.contains(a));
        let k = choose|k: int| 0 <= k < ids.len() && ids[k] == a;
        mentions_is_contains(odoo.model_data(a).inherit@, name);
        if delegates_by(odoo, a, m) {
            let pairs = odoo.model_data(a).inherits@;
            let j = choose|j: int| 0 <= j < pairs.len() && (#[trigger] pairs[j]).0@ == name;
            assert(delegates(pairs)[j] == name);
        }
        assert(leads_to(odoo, ids[k], name));
    }
    assert forall|ids: Set<SymbolId>|
        holds_model(odoo, ids, model) && #[trigger] is_closed(
            odoo,
            ids,
            true,
        ) implies names.subset_of(names_within(odoo, ids)) by {
        let within = names_within(odoo, ids);
        inherits_of_closed(odoo, ids);
        assert forall|n: Seq<char>|
            #[trigger] within.contains(n) && !none.contains(n) && odoo.model_at(
                n,
            ) is Some implies leads_within(odoo, odoo.classes(odoo.model_at(n)->0), within) by {
            let classes = odoo.classes(odoo.model_at(n)->0);
            odoo.model_at_is_first(n);
            classes_belong(odoo, odoo.model_at(n)->0);
            assert forall|k: int, name: Seq<char>|
                0 <= k < classes.len() && #[trigger] leads_to(odoo, classes[k], name)
                    && odoo.model_at(name) is Some implies within.contains(name) by {
                assert(classes.contains(classes[k]));
                if texts(odoo.model_data(classes[k]).inherit@).contains(name) {
                    inherited_is_within(odoo, ids, classes[k], name);
                } else {
                    delegated_is_within(odoo, ids, classes[k], name);
                }
            }
        }
        assert(within.contains(own));
        assert(complete_but(odoo, none, within));
    }
    if builds(odoo, model, true, e.0) {
        built_is_of_names(odoo, model, names, true, e.0);
    }
    if classes_of_names(odoo, model, names).contains(e.0) {
        of_names_is_built(odoo, model, names, true, e.0);
    }
}

/// A set that is closed under both kinds of inheritance is closed under the first.
proof fn inherits_of_closed(odoo: SyncOdoo, ids: Set<SymbolId>)
    requires
        is_closed(odoo, ids, true),
    ensures
        is_closed(odoo, ids, false),
{
    assert forall|a: SymbolId, m: ModelId, b: SymbolId|
        ids.contains(a) && #[trigger] draws_on(odoo, a, m, false) && #[trigger] belongs(
            odoo,
            m,
            b,
        ) implies ids.contains(b) by {
        assert(draws_on(odoo, a, m, true));
    }
}

/// Whether all listed classes are in the set.
spec fn all_within(entries: Seq<EntryView>, ids: Set<SymbolId>) -> bool {
    forall|i: int| 0 <= i < entries.len() ==> ids.contains((#[trigger] entries[i]).0)
}

proof fn visit_stays_within(
    odoo: SyncOdoo,
    from: Option<SymbolId>,
    model: ModelId,
    depth: nat,
    log: Seq<LogView>,
    visited: Set<Seq<char>>,
    ids: Set<SymbolId>,
)
    requires
        model < odoo.models.len(),
        is_closed(odoo, ids, false),
        holds_model(odoo, ids, model),
    ensures
        all_within(visit(odoo, from, model, depth, log, visited).main, ids),
    decreases depth, 2int, 0nat,
{
    let name = odoo.models@[model as int].name@;
    if !visited.contains(name) && depth > 0 {
        classes_belong(odoo, model);
        let classes = odoo.classes(model);
        assert forall|k: int| 0 <= k < classes.len() implies ids.contains(
            #[trigger] classes[k],
        ) by {
            assert(classes.contains(classes[k]));
        }
        classes_stay_within(
            odoo,
            from,
            classes,
            depth,
            Visit {
                main: Seq::empty(),
                inherits: Seq::empty(),
                log,
                visited: visited.insert(name),
            },
            ids,
        );
    }
}

proof fn classes_stay_within(
    odoo: SyncOdoo,
    from: Option<SymbolId>,
    classes: Seq<SymbolId>,
    depth: nat,
    start: Visit,
    ids: Set<SymbolId>,
)
    requires
        is_closed(odoo, ids, false),
        forall|k: int| 0 <= k < classes.len() ==> ids.contains(#[trigger] classes[k]),
        all_within(start.main, ids),
    ensures
        all_within(visit_classes(odoo, from, classes, depth, start).main, ids),
    decreases depth, 1int, classes.len(),
{
    if classes.len() > 0 {
        let front = classes.drop_last();
        assert forall|k: int| 0 <= k < front.len() implies ids.contains(#[trigger] front[k]) by {
            assert(front[k] == classes[k]);
        }
        classes_stay_within(odoo, from, front, depth, start, ids);
        let before = visit_classes(odoo, from, front, depth, start);
        let id = classes.last();
        assert(ids.contains(classes[classes.len() - 1]));
        entry_is_lacking(odoo, from, id);
        let listed = Visit {
            main: with_entry(odoo, from, id, before.main),
            log: with_message(odoo, from, id, before.log),
            ..before
        };
        let data = odoo.model_data(id);
        let names = texts(data.inherit@);
        assert forall|k: int| 0 <= k < names.len() implies names_within(odoo, ids).contains(
            #[trigger] names[k],
        ) by {
            assert(names.contains(names[k]));
            inherited_is_within(odoo, ids, id, names[k]);
        }
        names_stay_within(odoo, from, names, depth, false, listed, ids);
        let inherited = visit_names(odoo, from, names, depth, false, listed);
        names_stay_within(odoo, from, delegates(data.inherits@), depth, true, inherited, ids);
    }
}

proof fn names_stay_within(
    odoo: SyncOdoo,
    from: Option<SymbolId>,
    names: Seq<Seq<char>>,
    depth: nat,
    delegated: bool,
    start: Visit,
    ids: Set<SymbolId>,
)
    requires
        is_closed(odoo, ids, false),
        delegated || forall|k: int|
            0 <= k < names.len() ==> names_within(odoo, ids).contains(#[trigger] names[k]),
        all_within(start.main, ids),
    ensures
        all_within(visit_names(odoo, from, names, depth, delegated, start).main, ids),
    decreases depth, 0int, names.len(),
{
    if names.len() > 0 {
        let front = names.drop_last();
        assert forall|k: int| 0 <= k < front.len() && !delegated implies names_within(
            odoo,
            ids,
        ).contains(#[trigger] front[k]) by {
            assert(front[k] == names[k]);
        }
        names_stay_within(odoo, from, front, depth, delegated, start, ids);
        let before = visit_names(odoo, from, front, depth, delegated, start);
        let name = names.last();
        if odoo.model_at(name) is Some && depth > 0 && !delegated {
            let model = odoo.model_at(name)->0;
            odoo.model_at_is_first(name);
            assert(names_within(odoo, ids).contains(names[names.len() - 1]));
            visit_stays_within(
                odoo,
                from,
                model,
                (depth - 1) as nat,
                before.log,
                before.visited,
                ids,
            );
        }
    }
}

/// What is listed first for a model are its own classes, all of them, and classes of models
/// that it inherits from, along whatever chain. A class that it only has by delegation is not
/// among them.
pub proof fn main_classes_are_inherited(
    odoo: SyncOdoo,
    from: Option<SymbolId>,
    model: ModelId,
    log: Seq<LogView>,
    e: EntryView,
)
    requires
        odoo.wf(),
        model < odoo.models.len(),
    ensures
        all_inherits_visit(odoo, from, model, log).main.contains(e) ==> builds(
            odoo,
            model,
            false,
            e.0,
        ),
        belongs(odoo, model, e.0) && is_listable(odoo, from, e.0) && e.1 == lacking(
            odoo,
            from,
            e.0,
        ) ==> all_inherits_visit(odoo, from, model, log).main.contains(e),
{
    let main = all_inherits_visit(odoo, from, model, log).main;
    if main.contains(e) {
        let i = choose|i: int| 0 <= i < main.len() && main[i] == e;
        assert forall|ids: Set<SymbolId>|
            holds_model(odoo, ids, model) && #[trigger] is_closed(
                odoo,
                ids,
                false,
            ) implies ids.contains(e.0) by {
            visit_stays_within(
                odoo,
                from,
                model,
                (odoo.models@.len() + 1) as nat,
                log,
                Set::empty(),
                ids,
            );
            assert(ids.contains(main[i].0));
        }
    }
    classes_belong(odoo, model);
    odoo.named_is_found(model as int);
    odoo.model_at_is_first(odoo.models@[model as int].name@);
    all_symbols_inherits_are_complete(odoo, from, model, log);
    listed_is_lacking(odoo, from, odoo.classes(model), e);
    assert(odoo.classes(model).contains(e.0) <==> belongs(odoo, model, e.0));
}

/// Whether the class at `class` has the field at `id` under `name`.
pub open spec fn declares_field(
    odoo: SyncOdoo,
    class: SymbolId,
    name: Seq<char>,
    id: SymbolId,
) -> bool {
    let entries = odoo.symbols@[class as int]->0.data->Class_0.fields.entries@;
    &&& class < odoo.symbols.len()
    &&& odoo.symbols@[class as int] is Some
    &&& odoo.symbols@[class as int]->0.data is Class
    &&& exists|i: int, k: int|
        0 <= i < entries.len() && 0 <= k < entries[i].value@.len() && entries[i].name@ == name
            && #[trigger] entries[i].value@[k] == id
}

spec fn in_entries(
    entries: Seq<NameEntry<Vec<SymbolId>>>,
    name: Seq<char>,
    id: SymbolId,
) -> bool {
    exists|i: int, k: int|
        0 <= i < entries.len() && 0 <= k < entries[i].value@.len() && entries[i].name@ == name
            && #[trigger] entries[i].value@[k] == id
}

proof fn joined<T>(a: Seq<T>, b: Seq<T>, x: T)
    ensures
        (a + b).contains(x) <==> a.contains(x) || b.contains(x),
{
    if a.contains(x) {
        let i = choose|i: int| 0 <= i < a.len() && a[i] == x;
        assert((a + b)[i] == x);
    }
    if b.contains(x) {
        let i = choose|i: int| 0 <= i < b.len() && b[i] == x;
        assert((a + b)[a.len() + i] == x);
    }
}

proof fn entries_give_fields(
    entries: Seq<NameEntry<Vec<SymbolId>>>,
    dependency: Option<Seq<char>>,
    f: FieldEntry,
)
    ensures
        fields_of_entries(entries, dependency).contains(f) <==> in_entries(entries, f.0, (f.1).0)
            && (f.1).1 == dependency,
    decreases entries.len(),
{
    if entries.len() > 0 {
        let front = entries.drop_last();
        let last = entries.last();
        let named = named_fields(last.name@, last.value@, dependency);
        entries_give_fields(front, dependency, f);
        joined(fields_of_entries(front, dependency), named, f);
        if in_entries(front, f.0, (f.1).0) {
            let (i, k) = choose|i: int, k: int|
                0 <= i < front.len() && 0 <= k < front[i].value@.len() && front[i].name@ == f.0
                    && #[trigger] front[i].value@[k] == (f.1).0;
            assert(entries[i].value@[k] == (f.1).0);
        }
        if named.contains(f) {
            let k = choose|k: int| 0 <= k < named.len() && named[k] == f;
            assert(entries[entries.len() - 1].value@[k] == (f.1).0);
        }
        if in_entries(entries, f.0, (f.1).0) && (f.1).1 == dependency {
            let (i, k) = choose|i: int, k: int|
                0 <= i < entries.len() && 0 <= k < entries[i].value@.len() && entries[i].name@
                    == f.0 && #[trigger] entries[i].value@[k] == (f.1).0;
            if i < front.len() {
                assert(front[i].value@[k] == (f.1).0);
            } else {
                assert(named[k] == f);
            }
        }
    }
}

proof fn class_gives_fields(odoo: SyncOdoo, class: EntryView, f: FieldEntry)
    ensures
        fields_of_class(odoo, class.0, class.1).contains(f) <==> declares_field(
            odoo,
            class.0,
            f.0,
            (f.1).0,
        ) && (f.1).1 == class.1,
{
    let entries = odoo.sym(class.0).data->Class_0.fields.entries@;
    entries_give_fields(entries, class.1, f);
    assert(in_entries(entries, f.0, (f.1).0) == exists|i: int, k: int|
        0 <= i < entries.len() && 0 <= k < entries[i].value@.len() && entries[i].name@ == f.0
            && #[trigger] entries[i].value@[k] == (f.1).0);
}

proof fn classes_give_fields(odoo: SyncOdoo, classes: Seq<EntryView>, f: FieldEntry)
    ensures
        fields_of_classes(odoo, classes).contains(f) <==> exists|c: SymbolId| #[trigger]
            classes.contains((c, (f.1).1)) && declares_field(odoo, c, f.0, (f.1).0),
    decreases classes.len(),
{
    if classes.len() > 0 {
        let front = classes.drop_last();
        let last = classes.last();
        classes_give_fields(odoo, front, f);
        class_gives_fields(odoo, last, f);
        joined(fields_of_classes(odoo, front), fields_of_class(odoo, last.0, last.1), f);
        assert(classes =~= front.push(last));
        assert forall|c: SymbolId| #[trigger] classes.contains((c, (f.1).1)) <==> front.contains(
            (c, (f.1).1),
        ) || last == (c, (f.1).1) by {
            let e = (c, (f.1).1);
            joined(front, seq![last], e);
            assert(front + seq![last] =~= classes);
            assert(seq![last].contains(e) <==> last == e) by {
                assert(seq![last][0] == last);
            }
        }
        if fields_of_classes(odoo, front).contains(f) {
            let c = choose|c: SymbolId| #[trigger]
                front.contains((c, (f.1).1)) && declares_field(odoo, c, f.0, (f.1).0);
            assert(classes.contains((c, (f.1).1)));
        }
        if fields_of_class(odoo, last.0, last.1).contains(f) {
            assert(classes.contains((last.0, (f.1).1)));
        }
    }
}

/// The fields that a module sees on a class are those of the classes that build its model,
/// along both kinds of inheritance; and no others. Each comes with what the module lacks to use
/// the class that has it.
pub proof fn fields_are_of_the_model(
    odoo: SyncOdoo,
    id: SymbolId,
    model: ModelId,
    from: Option<SymbolId>,
    name: Seq<char>,
    field: SymbolId,
    dependency: Option<Seq<char>>,
)
    requires
        odoo.wf(),
        model < odoo.models.len(),
        odoo.models@[model as int].name@
            == odoo.symbols@[id as int]->0.data->Class_0.model->0.name@,
    ensures
        all_fields_of(odoo, id, from).contains((name, (field, dependency))) <==> exists|
            class: SymbolId,
        | #[trigger]
            declares_field(odoo, class, name, field) && builds(odoo, model, true, class)
                && is_listable(odoo, from, class) && dependency == lacking(odoo, from, class),
{
    let f = (name, (field, dependency));
    let log = Seq::<LogView>::empty();
    let result = all_inherits_visit(odoo, from, model, log);
    odoo.named_is_found(model as int);
    assert(field_visit(odoo, id, from, log) == result);
    joined(
        fields_of_classes(odoo, result.main),
        fields_of_classes(odoo, result.inherits),
        f,
    );
    classes_give_fields(odoo, result.main, f);
    classes_give_fields(odoo, result.inherits, f);
    assert forall|c: SymbolId|
        result.main.contains((c, dependency)) || result.inherits.contains((c, dependency))
            <==> builds(odoo, model, true, c) && is_listable(odoo, from, c) && dependency
            == #[trigger] lacking(odoo, from, c) by {
        delegated_classes_are_listed(odoo, from, model, log, (c, dependency));
    }
    if all_fields_of(odoo, id, from).contains(f) {
        if fields_of_classes(odoo, result.main).contains(f) {
            let c = choose|c: SymbolId| #[trigger]
                result.main.contains((c, (f.1).1)) && declares_field(odoo, c, f.0, (f.1).0);
            assert(dependency == lacking(odoo, from, c));
        } else {
            let c = choose|c: SymbolId| #[trigger]
                result.inherits.contains((c, (f.1).1)) && declares_field(odoo, c, f.0, (f.1).0);
            assert(dependency == lacking(odoo, from, c));
        }
    }
    if exists|class: SymbolId| #[trigger]
        declares_field(odoo, class, name, field) && builds(odoo, model, true, class)
            && is_listable(odoo, from, class) && dependency == lacking(odoo, from, class) {
        let c = choose|class: SymbolId| #[trigger]
            declares_field(odoo, class, name, field) && builds(odoo, model, true, class)
                && is_listable(odoo, from, class) && dependency == lacking(odoo, from, class);
        assert(result.main.contains((c, (f.1).1)) || result.inherits.contains((c, (f.1).1)));
    }
}

/// A class whose model is not known has no fields.
pub proof fn modelless_has_no_fields(odoo: SyncOdoo, id: SymbolId, from: Option<SymbolId>)
    requires
        odoo.wf(),
        forall|model: ModelId|
            model < odoo.models.len() ==> (#[trigger] odoo.models@[model as int]).name@
                != odoo.symbols@[id as int]->0.data->Class_0.model->0.name@,
    ensures
        all_fields_of(odoo, id, from).len() == 0,
{
    let name = odoo.symbols@[id as int]->0.data->Class_0.model->0.name@;
    if odoo.model_at(name) is Some {
        odoo.model_at_is_first(name);
        assert(odoo.models@[odoo.model_at(name)->0 as int].name@ == name);
    }
}

/// The entries under a name are those of the fields of that name.
pub proof fn under_is_by_name(fields: Seq<FieldEntry>, name: Seq<char>, e: EntryView)
    ensures
        under(fields, name).contains(e) <==> fields.contains((name, e)),
        under(fields, name).len() > 0 <==> exists|i: int|
            0 <= i < fields.len() && (#[trigger] fields[i]).0 == name,
    decreases fields.len(),
{
    if fields.len() > 0 {
        let front = fields.drop_last();
        let last = fields.last();
        under_is_by_name(front, name, e);
        assert(fields =~= front + seq![last]);
        joined(front, seq![last], (name, e));
        joined(under(front, name), seq![last.1], e);
        assert(under(front, name).push(last.1) =~= under(front, name) + seq![last.1]);
        assert(seq![last].contains((name, e)) <==> last == (name, e)) by {
            assert(seq![last][0] == last);
        }
        assert(seq![last.1].contains(e) <==> last.1 == e) by {
            assert(seq![last.1][0] == last.1);
        }
        assert(fields[fields.len() - 1] == last);
        assert forall|i: int| 0 <= i < front.len() implies front[i] == #[trigger] fields[i] by {}
        if under(front, name).len() > 0 {
            let i = choose|i: int| 0 <= i < front.len() && (#[trigger] front[i]).0 == name;
            assert(fields[i].0 == name);
        }
    }
}

/// What a filter keeps are the members that pass its test.
pub proof fn filter_keeps_passing<T>(s: Seq<T>, test: spec_fn(T) -> bool, x: T)
    ensures
        s.filter(test).contains(x) <==> s.contains(x) && test(x),
    decreases s.len(),
{
    reveal(Seq::filter);
    if s.len() > 0 {
        let front = s.drop_last();
        let last = s.last();
        filter_keeps_passing(front, test, x);
        assert(s =~= front + seq![last]);
        joined(front, seq![last], x);
        assert(seq![last].contains(x) <==> x == last) by {
            assert(seq![last][0] == last);
        }
        if test(last) {
            let kept = front.filter(test);
            assert(s.filter(test) =~= kept + seq![last]);
            joined(kept, seq![last], x);
        }
    }
}

/// The classes of a model itself are listed in ascending order, each once.
pub proof fn own_classes_ascend(
    odoo: SyncOdoo,
    from: Option<SymbolId>,
    model: ModelId,
    log: Seq<LogView>,
)
    ensures
        ({
            let entries = all_symbols_walk(odoo, from, false, model, log).entries;
            forall|i: int, j: int|
                0 <= i < j < entries.len() ==> (#[trigger] entries[i]).0 < (
                #[trigger] entries[j]).0
        }),
{
    assert(odoo.symbols@.len() == odoo.symbols.len());
    members_are_exact(odoo.symbols@, held(odoo.models@[model as int].symbols));
    walk_ascends(
        odoo,
        from,
        odoo.classes(model),
        odoo.models@.len(),
        Walk { entries: Seq::empty(), log, seen: Set::empty() },
    );
}

proof fn walk_ascends(
    odoo: SyncOdoo,
    from: Option<SymbolId>,
    ids: Seq<SymbolId>,
    depth: nat,
    walk: Walk,
)
    requires
        walk.entries.len() == 0,
        forall|i: int, j: int| 0 <= i < j < ids.len() ==> ids[i] < ids[j],
    ensures
        ({
            let entries = classes_walk(odoo, from, false, ids, depth, walk).entries;
            &&& forall|i: int, j: int|
                0 <= i < j < entries.len() ==> (#[trigger] entries[i]).0 < (
                #[trigger] entries[j]).0
            &&& forall|i: int|
                0 <= i < entries.len() ==> ids.contains((#[trigger] entries[i]).0)
        }),
    decreases ids.len(),
{
    if ids.len() > 0 {
        let front = ids.drop_last();
        let id = ids.last();
        walk_ascends(odoo, from, front, depth, walk);
        entry_is_lacking(odoo, from, id);
        let before = classes_walk(odoo, from, false, front, depth, walk).entries;
        let entries = classes_walk(odoo, from, false, ids, depth, walk).entries;
        assert(ids[ids.len() - 1] == id);
        assert forall|i: int| 0 <= i < before.len() implies before[i].0 < id && ids.contains(
            (#[trigger] before[i]).0,
        ) by {
            let k = choose|k: int| 0 <= k < front.len() && front[k] == before[i].0;
            assert(ids[k] == before[i].0);
            assert(ids[k] < ids[ids.len() - 1]);
        }
    }
}

/// Whether the list starts with the other one.
spec fn begins_with(b: Seq<EntryView>, a: Seq<EntryView>) -> bool {
    a.len() <= b.len() && b.take(a.len() as int) == a
}

proof fn begins_compose(a: Seq<EntryView>, b: Seq<EntryView>, c: Seq<EntryView>)
    requires
        begins_with(b, a),
        begins_with(c, b),
    ensures
        begins_with(c, a),
{
    assert(c.take(a.len() as int) =~= c.take(b.len() as int).take(a.len() as int));
}

proof fn names_add_to_main(
    odoo: SyncOdoo,
    from: Option<SymbolId>,
    names: Seq<Seq<char>>,
    depth: nat,
    delegated: bool,
    start: Visit,
)
    ensures
        begins_with(visit_names(odoo, from, names, depth, delegated, start).main, start.main),
    decreases names.len(),
{
    if names.len() == 0 {
        assert(start.main.take(start.main.len() as int) =~= start.main);
    } else {
        let before = visit_names(odoo, from, names.drop_last(), depth, delegated, start);
        names_add_to_main(odoo, from, names.drop_last(), depth, delegated, start);
        let after = visit_names(odoo, from, names, depth, delegated, start);
        assert(after.main.take(before.main.len() as int) =~= before.main);
        begins_compose(start.main, before.main, after.main);
    }
}

proof fn names_add_to_names(
    odoo: SyncOdoo,
    from: Option<SymbolId>,
    names: Seq<Seq<char>>,
    n: int,
    depth: nat,
    start: Visit,
)
    requires
        0 <= n <= names.len(),
    ensures
        begins_with(
            visit_names(odoo, from, names, depth, false, start).main,
            visit_names(odoo, from, names.take(n), depth, false, start).main,
        ),
    decreases names.len() - n,
{
    let a = visit_names(odoo, from, names.take(n), depth, false, start).main;
    if n == names.len() {
        assert(names.take(n) =~= names);
        assert(a.take(a.len() as int) =~= a);
    } else {
        let b = visit_names(odoo, from, names.take(n + 1), depth, false, start).main;
        assert(names.take(n + 1).drop_last() =~= names.take(n));
        assert(b.take(a.len() as int) =~= a);
        names_add_to_names(odoo, from, names, n + 1, depth, start);
        begins_compose(a, b, visit_names(odoo, from, names, depth, false, start).main);
    }
}

proof fn classes_add_to_main(
    odoo: SyncOdoo,
    from: Option<SymbolId>,
    ids: Seq<SymbolId>,
    n: int,
    depth: nat,
    start: Visit,
)
    requires
        0 <= n <= ids.len(),
    ensures
        begins_with(
            visit_classes(odoo, from, ids, depth, start).main,
            visit_classes(odoo, from, ids.take(n), depth, start).main,
        ),
    decreases ids.len() - n,
{
    let before = visit_classes(odoo, from, ids.take(n), depth, start);
    let a = before.main;
    if n == ids.len() {
        assert(ids.take(n) =~= ids);
        assert(a.take(a.len() as int) =~= a);
    } else {
        let id = ids[n];
        let b = visit_classes(odoo, from, ids.take(n + 1), depth, start).main;
        assert(ids.take(n + 1).drop_last() =~= ids.take(n));
        let listed = Visit {
            main: with_entry(odoo, from, id, before.main),
            log: with_message(odoo, from, id, before.log),
            ..before
        };
        let data = odoo.model_data(id);
        let names = texts(data.inherit@);
        let inherited = visit_names(odoo, from, names, depth, false, listed);
        assert(listed.main.take(a.len() as int) =~= a);
        names_add_to_main(odoo, from, names, depth, false, listed);
        names_add_to_main(odoo, from, delegates(data.inherits@), depth, true, inherited);
        begins_compose(a, listed.main, inherited.main);
        begins_compose(a, inherited.main, b);
        classes_add_to_main(odoo, from, ids, n + 1, depth, start);
        begins_compose(a, b, visit_classes(odoo, from, ids, depth, start).main);
    }
}

/// A visit of a model that was not visited lists its own classes first.
proof fn visit_lists_own(
    odoo: SyncOdoo,
    from: Option<SymbolId>,
    ids: Seq<SymbolId>,
    depth: nat,
    start: Visit,
    id: SymbolId,
)
    requires
        ids.contains(id),
        is_listable(odoo, from, id),
    ensures
        visit_classes(odoo, from, ids, depth, start).main.contains(
            (id, lacking(odoo, from, id)),
        ),
{
    let n = choose|n: int| 0 <= n < ids.len() && ids[n] == id;
    let e = (id, lacking(odoo, from, id));
    let before = visit_classes(odoo, from, ids.take(n), depth, start);
    let listed = Visit {
        main: with_entry(odoo, from, id, before.main),
        log: with_message(odoo, from, id, before.log),
        ..before
    };
    let data = odoo.model_data(id);
    let names = texts(data.inherit@);
    let inherited = visit_names(odoo, from, names, depth, false, listed);
    let after = visit_classes(odoo, from, ids.take(n + 1), depth, start);
    let whole = visit_classes(odoo, from, ids, depth, start);
    entry_is_lacking(odoo, from, id);
    assert(ids.take(n + 1).drop_last() =~= ids.take(n));
    assert(listed.main[before.main.len() as int] == e);
    names_add_to_main(odoo, from, names, depth, false, listed);
    names_add_to_main(odoo, from, delegates(data.inherits@), depth, true, inherited);
    begins_compose(listed.main, inherited.main, after.main);
    classes_add_to_main(odoo, from, ids, n + 1, depth, start);
    begins_compose(listed.main, after.main, whole.main);
    assert(whole.main.take(listed.main.len() as int)[before.main.len() as int] == e);
    assert(whole.main[before.main.len() as int] == e);
}

/// What is inherited goes before what is delegated to: the model that the first class of a model
/// inherits from first is listed as inherited, whatever else the class, or any other, delegates
/// to.
pub proof fn inherited_goes_first(
    odoo: SyncOdoo,
    from: Option<SymbolId>,
    model: ModelId,
    log: Seq<LogView>,
    first: SymbolId,
    other: ModelId,
    id: SymbolId,
)
    requires
        odoo.wf(),
        model < odoo.models.len(),
        other < odoo.models.len(),
        other != model,
        belongs(odoo, model, first),
        forall|c: SymbolId| #[trigger] belongs(odoo, model, c) ==> first <= c,
        odoo.symbols@[first as int]->0.data->Class_0.model->0.inherit@.len() > 0,
        odoo.symbols@[first as int]->0.data->Class_0.model->0.inherit@[0]@
            == odoo.models@[other as int].name@,
        belongs(odoo, other, id),
        is_listable(odoo, from, id),
    ensures
        all_inherits_visit(odoo, from, model, log).main.contains((id, lacking(odoo, from, id))),
{
    let depth = (odoo.models@.len() + 1) as nat;
    let own = odoo.models@[model as int].name@;
    let name = odoo.models@[other as int].name@;
    let ids = odoo.classes(model);
    let e = (id, lacking(odoo, from, id));
    classes_belong(odoo, model);
    classes_belong(odoo, other);
    assert(odoo.symbols@.len() == odoo.symbols.len());
    members_are_exact(odoo.symbols@, held(odoo.models@[model as int].symbols));
    assert(ids.contains(first));
    assert(ids[0] == first) by {
        let k = choose|k: int| 0 <= k < ids.len() && ids[k] == first;
        assert(ids.contains(ids[0]));
        assert(belongs(odoo, model, ids[0]));
        if k > 0 {
            assert(ids[0] < ids[k]);
        }
    }
    odoo.named_is_found(other as int);
    odoo.named_is_found(model as int);
    assert(own != name);
    let start = Visit {
        main: Seq::empty(),
        inherits: Seq::empty(),
        log,
        visited: Set::empty().insert(own),
    };
    let before = visit_classes(odoo, from, ids.take(0), depth, start);
    assert(ids.take(0).len() == 0);
    assert(before == start);
    let listed = Visit {
        main: with_entry(odoo, from, first, before.main),
        log: with_message(odoo, from, first, before.log),
        ..before
    };
    let data = odoo.model_data(first);
    let names = texts(data.inherit@);
    let one = names.take(1);
    assert(one.drop_last() =~= Seq::empty());
    assert(one.last() == name);
    assert(visit_names(odoo, from, one.drop_last(), depth, false, listed) == listed);
    let sub = visit(odoo, from, other, (depth - 1) as nat, listed.log, listed.visited);
    let met = visit_names(odoo, from, one, depth, false, listed);
    assert(met.main == listed.main + sub.main);
    assert(odoo.classes(other).contains(id));
    visit_lists_own(
        odoo,
        from,
        odoo.classes(other),
        (depth - 1) as nat,
        Visit {
            main: Seq::empty(),
            inherits: Seq::empty(),
            log: listed.log,
            visited: listed.visited.insert(name),
        },
        id,
    );
    assert(sub.main.contains(e));
    let i = choose|i: int| 0 <= i < sub.main.len() && sub.main[i] == e;
    let at = listed.main.len() + i;
    assert(met.main[at] == e);
    let inherited = visit_names(odoo, from, names, depth, false, listed);
    names_add_to_names(odoo, from, names, 1, depth, listed);
    names_add_to_main(odoo, from, delegates(data.inherits@), depth, true, inherited);
    let after = visit_classes(odoo, from, ids.take(1), depth, start);
    assert(ids.take(1).drop_last() =~= ids.take(0));
    assert(ids.take(1).last() == first);
    begins_compose(met.main, inherited.main, after.main);
    classes_add_to_main(odoo, from, ids, 1, depth, start);
    let whole = visit_classes(odoo, from, ids, depth, start);
    begins_compose(met.main, after.main, whole.main);
    assert(whole.main.take(met.main.len() as int)[at] == e);
    assert(whole.main[at] == e);
    assert(all_inherits_visit(odoo, from, model, log) == whole);
}

/// The fields of what a model has by inheritance come before those of what it has by delegation
/// only: up to some place all are declared by classes of the first list, from there on by classes
/// of the second.
pub proof fn inherited_fields_come_first(
    odoo: SyncOdoo,
    id: SymbolId,
    model: ModelId,
    from: Option<SymbolId>,
)
    requires
        odoo.wf(),
        model < odoo.models.len(),
        odoo.models@[model as int].name@
            == odoo.symbols@[id as int]->0.data->Class_0.model->0.name@,
    ensures
        ({
            let fields = all_fields_of(odoo, id, from);
            let lists = all_inherits_visit(odoo, from, model, Seq::empty());
            exists|n: int| #[trigger] fields_part_at(odoo, fields, lists.main, lists.inherits, n)
        }),
{
    let log = Seq::<LogView>::empty();
    let lists = all_inherits_visit(odoo, from, model, log);
    odoo.named_is_found(model as int);
    assert(field_visit(odoo, id, from, log) == lists);
    let a = fields_of_classes(odoo, lists.main);
    let b = fields_of_classes(odoo, lists.inherits);
    let fields = all_fields_of(odoo, id, from);
    let n = a.len() as int;
    assert forall|i: int| 0 <= i < n implies #[trigger] comes_from(
        odoo,
        fields[i],
        lists.main,
    ) by {
        assert(fields[i] == a[i]);
        assert(a.contains(a[i]));
        classes_give_fields(odoo, lists.main, a[i]);
    }
    assert forall|i: int| n <= i < fields.len() implies #[trigger] comes_from(
        odoo,
        fields[i],
        lists.inherits,
    ) by {
        assert(fields[i] == b[i - n]);
        assert(b.contains(b[i - n]));
        classes_give_fields(odoo, lists.inherits, b[i - n]);
    }
    assert(fields_part_at(odoo, fields, lists.main, lists.inherits, n));
}

/// Whether the fields up to `n` come from the first classes, and those from there on from the
/// second.
pub open spec fn fields_part_at(
    odoo: SyncOdoo,
    fields: Seq<FieldEntry>,
    first: Seq<EntryView>,
    second: Seq<EntryView>,
    n: int,
) -> bool {
    &&& 0 <= n <= fields.len()
    &&& forall|i: int| 0 <= i < n ==> #[trigger] comes_from(odoo, fields[i], first)
    &&& forall|i: int| n <= i < fields.len() ==> #[trigger] comes_from(odoo, fields[i], second)
}

/// Whether a field is declared by one of the listed classes, and comes with what the list says is
/// lacking to use that class.
pub open spec fn comes_from(odoo: SyncOdoo, field: FieldEntry, classes: Seq<EntryView>) -> bool {
    exists|class: SymbolId| #[trigger]
        classes.contains((class, (field.1).1)) && declares_field(odoo, class, field.0, (field.1).0)
}

} // verus!
