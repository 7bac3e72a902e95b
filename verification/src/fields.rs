//! The fields of a model's classes.
use vstd::prelude::*;

use crate::constants::SymbolId;
use crate::model::Model;
use crate::model_walk::{all_inherits_visit, entry_views, name_set, unmet_shrinks, Entry, EntryView, Visit};
use crate::names::{NameEntry, NameMap};
use crate::odoo::{log_views, LogMessage, LogView, SyncOdoo};
use crate::symbols::{Symbol, SymbolData};
use crate::text::texts;
use crate::xml_data::{copy_text, optional_text};

verus! {

/// A field, by the name it is declared under.
pub type FieldEntry = (Seq<char>, EntryView);

/// Fields by name, each with the module that has to be depended on to use it, if that is
/// not yet so.
pub type FieldMap = NameMap<Vec<Entry>>;

/// The fields of a symbol table entry's ids under one name.
pub open spec fn named_fields(
    name: Seq<char>,
    ids: Seq<SymbolId>,
    dependency: Option<Seq<char>>,
) -> Seq<FieldEntry> {
    ids.map_values(|id: SymbolId| (name, (id, dependency)))
}

/// The fields of the entries of a class, in order.
pub open spec fn fields_of_entries(
    entries: Seq<NameEntry<Vec<SymbolId>>>,
    dependency: Option<Seq<char>>,
) -> Seq<FieldEntry>
    decreases entries.len(),
{
    if entries.len() == 0 {
        Seq::empty()
    } else {
        fields_of_entries(entries.drop_last(), dependency) + named_fields(
            entries.last().name@,
            entries.last().value@,
            dependency,
        )
    }
}

/// The fields of the class at `id`.
pub open spec fn fields_of_class(
    odoo: SyncOdoo,
    id: SymbolId,
    dependency: Option<Seq<char>>,
) -> Seq<FieldEntry> {
    if odoo.live(id) && odoo.sym(id).data is Class {
        fields_of_entries(odoo.sym(id).data->Class_0.fields.entries@, dependency)
    } else {
        Seq::empty()
    }
}

/// The fields of several classes, in order.
pub open spec fn fields_of_classes(odoo: SyncOdoo, classes: Seq<EntryView>) -> Seq<FieldEntry>
    decreases classes.len(),
{
    if classes.len() == 0 {
        Seq::empty()
    } else {
        fields_of_classes(odoo, classes.drop_last()) + fields_of_class(
            odoo,
            classes.last().0,
            classes.last().1,
        )
    }
}

/// The entries under `name` among `fields`.
pub open spec fn under(fields: Seq<FieldEntry>, name: Seq<char>) -> Seq<EntryView>
    decreases fields.len(),
{
    if fields.len() == 0 {
        Seq::empty()
    } else {
        let front = under(fields.drop_last(), name);
        if fields.last().0 == name {
            front.push(fields.last().1)
        } else {
            front
        }
    }
}

/// Whether `map` holds exactly `fields`: by name, each name once, in order.
pub open spec fn holds_fields(map: FieldMap, fields: Seq<FieldEntry>) -> bool {
    &&& map.distinct()
    &&& forall|name: Seq<char>| #[trigger] map.has(name) <==> under(fields, name).len() > 0
    &&& forall|name: Seq<char>| #[trigger]
        map.has(name) ==> entry_views(map.value(name)@) == under(fields, name)
}

/// The visit that finds the classes whose fields the class at `id` has.
pub open spec fn field_visit(
    odoo: SyncOdoo,
    id: SymbolId,
    from: Option<SymbolId>,
    log: Seq<LogView>,
) -> Visit {
    match odoo.model_at(odoo.model_data(id).name@) {
        Some(model) => all_inherits_visit(odoo, from, model, log),
        None => Visit {
            main: Seq::empty(),
            inherits: Seq::empty(),
            log,
            visited: Set::empty(),
        },
    }
}

/// All fields of the class at `id`: those of every class of its model, of the models it
/// inherits from and of those it delegates to.
pub open spec fn all_fields_of(
    odoo: SyncOdoo,
    id: SymbolId,
    from: Option<SymbolId>,
) -> Seq<FieldEntry> {
    let visit = field_visit(odoo, id, from, Seq::empty());
    fields_of_classes(odoo, visit.main) + fields_of_classes(odoo, visit.inherits)
}

/// Adds a field to the map.
fn add_field(
    map: &mut FieldMap,
    name: &str,
    id: SymbolId,
    dependency: &Option<String>,
    Ghost(fields): Ghost<Seq<FieldEntry>>,
)
    requires
        holds_fields(*old(map), fields),
    ensures
        holds_fields(*final(map), fields.push((name@, (id, optional_text(*dependency))))),
{
    let ghost before = *map;
    let ghost entry = (id, optional_text(*dependency));
    let ghost more = fields.push((name@, entry));
    proof {
        assert(more.drop_last() =~= fields);
        assert(entry_views(Seq::<Entry>::empty()) =~= Seq::empty());
        assert(under(fields, name@).len() == 0 ==> under(fields, name@) =~= Seq::empty());
    }
    let list = map.entry(name, Vec::new());
    let ghost listed = list@;
    list.push((id, copy_text(dependency)));
    proof {
        assert(entry_views(list@) =~= entry_views(listed).push(entry));
    }
}

/// Adds the fields of a class to the map.
fn add_class_fields(
    odoo: &SyncOdoo,
    map: &mut FieldMap,
    class: SymbolId,
    dependency: &Option<String>,
    Ghost(fields): Ghost<Seq<FieldEntry>>,
)
    requires
        holds_fields(*old(map), fields),
    ensures
        holds_fields(
            *final(map),
            fields + fields_of_class(*odoo, class, optional_text(*dependency)),
        ),
{
    let ghost dep = optional_text(*dependency);
    if let Some(symbol) = odoo.get(class) {
        if let SymbolData::Class(class) = &symbol.data {
            let entries = &class.fields.entries;
            let mut i: usize = 0;
            proof {
                assert(entries@.take(0) =~= Seq::empty());
                assert(fields + fields_of_entries(entries@.take(0), dep) =~= fields);
            }
            while i < entries.len()
                invariant
                    i <= entries.len(),
                    dep == optional_text(*dependency),
                    holds_fields(*map, fields + fields_of_entries(entries@.take(i as int), dep)),
                decreases entries.len() - i,
            {
                let name = entries[i].name.as_str();
                let ids = &entries[i].value;
                let ghost sofar = fields + fields_of_entries(entries@.take(i as int), dep);
                proof {
                    assert(entries@.take(i + 1).drop_last() =~= entries@.take(i as int));
                    assert(sofar + named_fields(name@, ids@, dep).take(0) =~= sofar);
                }
                let mut j: usize = 0;
                while j < ids.len()
                    invariant
                        j <= ids.len(),
                        dep == optional_text(*dependency),
                        holds_fields(*map, sofar + named_fields(name@, ids@, dep).take(j as int)),
                    decreases ids.len() - j,
                {
                    let ghost now = sofar + named_fields(name@, ids@, dep).take(j as int);
                    add_field(map, name, ids[j], dependency, Ghost(now));
                    assert(now.push((name@, (ids@[j as int], dep))) =~= sofar + named_fields(
                        name@,
                        ids@,
                        dep,
                    ).take(j + 1));
                    j = j + 1;
                }
                proof {
                    assert(named_fields(name@, ids@, dep).take(j as int) =~= named_fields(
                        name@,
                        ids@,
                        dep,
                    ));
                    assert(sofar + named_fields(name@, ids@, dep) =~= fields
                        + fields_of_entries(entries@.take(i + 1), dep));
                }
                i = i + 1;
            }
            assert(entries@.take(i as int) =~= entries@);
            return;
        }
    }
    assert(fields + fields_of_class(*odoo, class, dep) =~= fields);
}

/// Adds the fields of several classes to the map.
fn add_fields(
    odoo: &SyncOdoo,
    map: &mut FieldMap,
    classes: &Vec<Entry>,
    Ghost(fields): Ghost<Seq<FieldEntry>>,
)
    requires
        holds_fields(*old(map), fields),
    ensures
        holds_fields(*final(map), fields + fields_of_classes(*odoo, entry_views(classes@))),
{
    let ghost all = entry_views(classes@);
    let mut i: usize = 0;
    proof {
        assert(all.take(0) =~= Seq::empty());
        assert(fields + fields_of_classes(*odoo, all.take(0)) =~= fields);
    }
    while i < classes.len()
        invariant
            i <= classes.len(),
            all == entry_views(classes@),
            holds_fields(*map, fields + fields_of_classes(*odoo, all.take(i as int))),
        decreases classes.len() - i,
    {
        let ghost sofar = fields + fields_of_classes(*odoo, all.take(i as int));
        proof {
            assert(all.take(i + 1).drop_last() =~= all.take(i as int));
            assert(all.take(i + 1).last() == all[i as int]);
        }
        add_class_fields(odoo, map, classes[i].0, &classes[i].1, Ghost(sofar));
        assert(sofar + fields_of_class(*odoo, all[i as int].0, all[i as int].1) =~= fields
            + fields_of_classes(*odoo, all.take(i + 1)));
        i = i + 1;
    }
    assert(all.take(i as int) =~= all);
}

proof fn log_is_apart(odoo: SyncOdoo, id: SymbolId, from: Option<SymbolId>, log: Seq<LogView>)
    ensures
        field_visit(odoo, id, from, log).main == field_visit(odoo, id, from, Seq::empty()).main,
        field_visit(odoo, id, from, log).inherits == field_visit(
            odoo,
            id,
            from,
            Seq::empty(),
        ).inherits,
{
    if let Some(model) = odoo.model_at(odoo.model_data(id).name@) {
        crate::model_laws::visit_ignores_log(
            odoo,
            from,
            model,
            (odoo.models@.len() + 1) as nat,
            log,
            Seq::empty(),
            Set::empty(),
        );
    }
}

impl Symbol {
    /// All fields of the class at `id`: those of every class of its model, of the models
    /// it inherits from and of those it delegates to.
    pub fn all_fields(
        id: SymbolId,
        odoo: &SyncOdoo,
        from_module: Option<SymbolId>,
        messages: &mut Vec<LogMessage>,
    ) -> (r: FieldMap)
        requires
            odoo.wf(),
            odoo.models_wf(),
            odoo.is_model_class(id),
            from_module is Some ==> odoo.is_module(from_module->0),
        ensures
            holds_fields(r, all_fields_of(*odoo, id, from_module)),
            log_views(final(messages)@) == field_visit(
                *odoo,
                id,
                from_module,
                log_views(old(messages)@),
            ).log,
    {
        let mut map: FieldMap = NameMap::new();
        proof {
            log_is_apart(*odoo, id, from_module, log_views(messages@));
            assert forall|name: Seq<char>| under(Seq::empty(), name).len() == 0 by {}
            assert(holds_fields(map, Seq::empty()));
        }
        if let Some(data) = odoo.get_model_data(id) {
            if let Some(model) = odoo.get_model(data.name.as_str()) {
                let mut visited: Vec<String> = Vec::new();
                proof {
                    assert(texts(visited@) =~= Seq::empty());
                    assert(name_set(visited@) =~= Set::empty());
                    unmet_shrinks(odoo.models@, Set::empty(), Set::empty());
                }
                let (main, inherits) = Model::all_inherits_helper(
                    model,
                    odoo,
                    from_module,
                    &mut visited,
                    messages,
                    Ghost((odoo.models@.len() + 1) as nat),
                );
                add_fields(odoo, &mut map, &main, Ghost(Seq::empty()));
                let ghost own = fields_of_classes(*odoo, entry_views(main@));
                assert(Seq::empty() + own =~= own);
                add_fields(odoo, &mut map, &inherits, Ghost(own));
                return map;
            }
        }
        assert(all_fields_of(*odoo, id, from_module) =~= Seq::empty());
        map
    }
}

} // verus!
