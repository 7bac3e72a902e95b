//! What holds of validating XML data files as a whole.
use vstd::prelude::*;

use crate::constants::{ModelId, SymbolId};
use crate::handles::held;
use crate::model_changes::told;
use crate::odoo::{members_are_exact, SessionInfo, SyncOdoo};
use crate::xml_data::{data_views, DataKind, DataView, FieldView};
use crate::xml_laws::{only_reported, starts_with};
use crate::xml_validation::{data_checked, field_checked, fields_checked, file_checked, files_of, list_checked, model_exists, names_checked, nothing_found, record_checked, validated, FindingsView};

verus! {

/// Whether `b` is `a` with findings added, among them no diagnostic that is switched off.
pub open spec fn extends(session: SessionInfo, a: FindingsView, b: FindingsView) -> bool {
    &&& only_reported(session.disabled(), a.diagnostics, b.diagnostics)
    &&& starts_with(b.dependencies, a.dependencies)
    &&& starts_with(b.model_dependencies, a.model_dependencies)
    &&& a.missing_models.subset_of(b.missing_models)
}

proof fn extends_compose(session: SessionInfo, a: FindingsView, b: FindingsView, c: FindingsView)
    requires
        extends(session, a, b),
        extends(session, b, c),
    ensures
        extends(session, a, c),
{
    assert forall|i: int| 0 <= i < a.diagnostics.len() implies #[trigger] c.diagnostics[i]
        == a.diagnostics[i] by {
        assert(b.diagnostics[i] == a.diagnostics[i]);
    }
    assert forall|i: int| a.diagnostics.len() <= i < c.diagnostics.len() implies !session.disabled().contains(
        (#[trigger] c.diagnostics[i]).code,
    ) by {
        if i < b.diagnostics.len() {
            assert(c.diagnostics[i] == b.diagnostics[i]);
        }
    }
    assert forall|i: int| 0 <= i < a.dependencies.len() implies #[trigger] c.dependencies[i]
        == a.dependencies[i] by {
        assert(b.dependencies[i] == a.dependencies[i]);
    }
    assert forall|i: int| 0 <= i < a.model_dependencies.len() implies #[trigger] c.model_dependencies[i]
        == a.model_dependencies[i] by {
        assert(b.model_dependencies[i] == a.model_dependencies[i]);
    }
}

proof fn fields_only_add(
    session: SessionInfo,
    file: SymbolId,
    model: Seq<char>,
    known: Set<Seq<char>>,
    fields: Seq<FieldView>,
    found: FindingsView,
)
    ensures
        extends(session, found, fields_checked(session, file, model, known, fields, found)),
        fields_checked(session, file, model, known, fields, found).dependencies
            == found.dependencies,
        fields_checked(session, file, model, known, fields, found).model_dependencies
            == found.model_dependencies,
    decreases fields.len(),
{
    if fields.len() > 0 {
        let before = fields_checked(session, file, model, known, fields.drop_last(), found);
        fields_only_add(session, file, model, known, fields.drop_last(), found);
        let after = field_checked(session, file, model, known, fields.last(), before);
        assert(extends(session, before, after));
        extends_compose(session, found, before, after);
    }
}

/// Validating a record of a model that does not exist, or that the module cannot see, notes the
/// model as missing and makes the file depend on nothing.
pub proof fn missing_model_is_noted(
    session: SessionInfo,
    file: SymbolId,
    module: SymbolId,
    name: Seq<char>,
    range: std::ops::Range<usize>,
    fields: Seq<FieldView>,
    found: FindingsView,
)
    requires
        ({
            let odoo = session.sync_odoo;
            !model_exists(odoo, name) || odoo.main_symbols(
                odoo.model_at(name)->0,
                Some(module),
            ).len() == 0
        }),
    ensures
        ({
            let after = record_checked(session, file, module, name, range, fields, found);
            &&& after.missing_models == found.missing_models.insert(name)
            &&& after.dependencies == found.dependencies
            &&& after.model_dependencies == found.model_dependencies
            &&& extends(session, found, after)
        }),
{
}

/// Validating a record of a model that the module can see makes the file depend on the model and
/// on the files that define it.
pub proof fn known_model_is_depended_on(
    session: SessionInfo,
    file: SymbolId,
    module: SymbolId,
    name: Seq<char>,
    range: std::ops::Range<usize>,
    fields: Seq<FieldView>,
    found: FindingsView,
)
    requires
        model_exists(session.sync_odoo, name),
        session.sync_odoo.main_symbols(
            session.sync_odoo.model_at(name)->0,
            Some(module),
        ).len() > 0,
    ensures
        ({
            let odoo = session.sync_odoo;
            let model = odoo.model_at(name)->0;
            let after = record_checked(session, file, module, name, range, fields, found);
            &&& after.model_dependencies == found.model_dependencies.push(model)
            &&& after.dependencies == found.dependencies + files_of(
                odoo,
                odoo.main_symbols(model, Some(module)),
            )
            &&& extends(session, found, after)
        }),
{
    let odoo = session.sync_odoo;
    let model = odoo.model_at(name)->0;
    let mains = odoo.main_symbols(model, Some(module));
    let start = FindingsView {
        dependencies: found.dependencies + files_of(odoo, mains),
        model_dependencies: found.model_dependencies.push(model),
        log: crate::fields::field_visit(odoo, mains[0], Some(module), found.log).log,
        ..found
    };
    assert(extends(session, found, start));
    fields_only_add(
        session,
        file,
        name,
        crate::xml_validation::field_names(odoo, mains[0], module),
        fields,
        start,
    );
    extends_compose(session, found, start, record_checked(session, file, module, name, range, fields, found));
}

/// Validating a declaration only adds to what was found.
pub proof fn validation_only_adds(
    session: SessionInfo,
    file: SymbolId,
    module: SymbolId,
    data: DataView,
    found: FindingsView,
)
    ensures
        extends(session, found, data_checked(session, file, module, data, found)),
{
    if let DataKind::Record { model: name, model_range: range, fields } = data.kind {
        let odoo = session.sync_odoo;
            if !model_exists(odoo, name) || odoo.main_symbols(
            odoo.model_at(name)->0,
            Some(module),
        ).len() == 0 {
            missing_model_is_noted(session, file, module, name, range, fields, found);
        } else {
            known_model_is_depended_on(session, file, module, name, range, fields, found);
        }
    }
}

proof fn list_only_adds(
    session: SessionInfo,
    file: SymbolId,
    module: SymbolId,
    list: Seq<DataView>,
    found: FindingsView,
)
    ensures
        extends(session, found, list_checked(session, file, module, list, found)),
    decreases list.len(),
{
    if list.len() > 0 {
        let before = list_checked(session, file, module, list.drop_last(), found);
        list_only_adds(session, file, module, list.drop_last(), found);
        validation_only_adds(session, file, module, list.last(), before);
        extends_compose(session, found, before, list_checked(session, file, module, list, found));
    }
}

proof fn names_only_add(
    session: SessionInfo,
    file: SymbolId,
    module: SymbolId,
    names: Seq<Seq<char>>,
    found: FindingsView,
)
    ensures
        extends(session, found, names_checked(session, file, module, names, found)),
    decreases names.len(),
{
    if names.len() > 0 {
        let before = names_checked(session, file, module, names.drop_last(), found);
        names_only_add(session, file, module, names.drop_last(), found);
        list_only_adds(
            session,
            file,
            module,
            session.sync_odoo.declared(file, names.last()),
            before,
        );
        extends_compose(
            session,
            found,
            before,
            names_checked(session, file, module, names, found),
        );
    }
}

/// Validation reports nothing that the configuration switches off.
pub proof fn switched_off_is_silent(session: SessionInfo, file: SymbolId)
    ensures
        forall|i: int|
            0 <= i < file_checked(session, file).diagnostics.len() ==> !session.disabled().contains(
                (#[trigger] file_checked(session, file).diagnostics[i]).code,
            ),
{
    let odoo = session.sync_odoo;
    names_only_add(
        session,
        file,
        odoo.sym(file).module->0,
        odoo.declared_names(file),
        nothing_found(session),
    );
}

/// What validation goes over is what loading registered: the entries of the file are its IDs,
/// each once, with what is declared under them, and nothing is declared under any other ID.
pub proof fn checked_is_declared(odoo: SyncOdoo, file: SymbolId)
    requires
        odoo.wf(),
        odoo.is_xml_file(file),
    ensures
        ({
            let entries = odoo.sym(file).data->XmlFile_0.xml_ids.entries@;
            let index = odoo.xml_index();
            let names = index.names[file];
            &&& names == odoo.declared_names(file)
            &&& names.no_duplicates()
            &&& entries.len() == names.len()
            &&& forall|i: int|
                0 <= i < entries.len() ==> (#[trigger] entries[i]).name@ == names[i]
                    && data_views(entries[i].value@) == index.data[(file, names[i])]
            &&& forall|key: Seq<char>| #[trigger]
                index.data[(file, key)] == odoo.declared(file, key)
            &&& forall|key: Seq<char>|
                !names.contains(key) ==> (#[trigger] index.data[(file, key)]).len() == 0
        }),
{
    reveal(SyncOdoo::xml_index);
    let map = odoo.sym(file).data->XmlFile_0.xml_ids;
    let entries = map.entries@;
    let names = map.names();
    assert(odoo.live(file));
    assert forall|i: int, j: int| 0 <= i < j < names.len() implies names[i] != names[j] by {
        assert(entries[i].name@ != entries[j].name@);
    }
    assert forall|i: int| 0 <= i < entries.len() implies (#[trigger] entries[i]).name@ == names[i]
        && data_views(entries[i].value@) == odoo.xml_index().data[(file, names[i])] by {
        map.entry_counts(i);
    }
    assert forall|key: Seq<char>| !names.contains(key) implies (
    #[trigger] odoo.xml_index().data[(file, key)]).len() == 0 by {
        map.named_has(key);
    }
}

/// Whether a declaration names the model called `name`: as the model of a record, or in the text
/// of one of the record's fields.
pub open spec fn names_model_of(data: DataView, name: Seq<char>) -> bool {
    match data.kind {
        DataKind::Record { model, fields, .. } => model == name || exists|i: int|
            0 <= i < fields.len() && (#[trigger] fields[i]).text == Some(name),
        _ => false,
    }
}

proof fn fields_miss_what_they_name(
    session: SessionInfo,
    file: SymbolId,
    model: Seq<char>,
    known: Set<Seq<char>>,
    fields: Seq<FieldView>,
    found: FindingsView,
    name: Seq<char>,
)
    requires
        fields_checked(session, file, model, known, fields, found).missing_models.contains(name),
        !found.missing_models.contains(name),
    ensures
        exists|i: int| 0 <= i < fields.len() && (#[trigger] fields[i]).text == Some(name),
    decreases fields.len(),
{
    if fields.len() > 0 {
        let rest = fields.drop_last();
        let before = fields_checked(session, file, model, known, rest, found);
        if before.missing_models.contains(name) {
            fields_miss_what_they_name(session, file, model, known, rest, found, name);
            let i = choose|i: int| 0 <= i < rest.len() && (#[trigger] rest[i]).text == Some(name);
            assert(fields[i].text == Some(name));
        } else {
            assert(fields[fields.len() - 1].text == Some(name));
        }
    }
}

proof fn list_misses_what_it_names(
    session: SessionInfo,
    file: SymbolId,
    module: SymbolId,
    list: Seq<DataView>,
    found: FindingsView,
    name: Seq<char>,
)
    requires
        list_checked(session, file, module, list, found).missing_models.contains(name),
        !found.missing_models.contains(name),
    ensures
        exists|i: int| 0 <= i < list.len() && names_model_of(#[trigger] list[i], name),
    decreases list.len(),
{
    if list.len() > 0 {
        let rest = list.drop_last();
        let before = list_checked(session, file, module, rest, found);
        if before.missing_models.contains(name) {
            list_misses_what_it_names(session, file, module, rest, found, name);
            let i = choose|i: int| 0 <= i < rest.len() && names_model_of(#[trigger] rest[i], name);
            assert(names_model_of(list[i], name));
        } else {
            let last = list[list.len() - 1];
            if let DataKind::Record { model, fields, .. } = last.kind {
                let odoo = session.sync_odoo;
                let mains = odoo.main_symbols(odoo.model_at(model)->0, Some(module));
                if model_exists(odoo, model) && mains.len() > 0 {
                    fields_miss_what_they_name(
                        session,
                        file,
                        model,
                        crate::xml_validation::field_names(odoo, mains[0], module),
                        fields,
                        FindingsView {
                            dependencies: before.dependencies + files_of(odoo, mains),
                            model_dependencies: before.model_dependencies.push(
                                odoo.model_at(model)->0,
                            ),
                            log: crate::fields::field_visit(
                                odoo,
                                mains[0],
                                Some(module),
                                before.log,
                            ).log,
                            ..before
                        },
                        name,
                    );
                }
            }
            assert(names_model_of(last, name));
        }
    }
}

proof fn names_miss_what_they_name(
    session: SessionInfo,
    file: SymbolId,
    module: SymbolId,
    names: Seq<Seq<char>>,
    found: FindingsView,
    name: Seq<char>,
)
    requires
        names_checked(session, file, module, names, found).missing_models.contains(name),
        !found.missing_models.contains(name),
    ensures
        exists|key: Seq<char>, i: int|
            0 <= i < session.sync_odoo.declared(file, key).len() && names_model_of(
                #[trigger] session.sync_odoo.declared(file, key)[i],
                name,
            ),
    decreases names.len(),
{
    if names.len() > 0 {
        let rest = names.drop_last();
        let before = names_checked(session, file, module, rest, found);
        if before.missing_models.contains(name) {
            names_miss_what_they_name(session, file, module, rest, found, name);
        } else {
            let list = session.sync_odoo.declared(file, names.last());
            list_misses_what_it_names(session, file, module, list, before, name);
            let i = choose|i: int| 0 <= i < list.len() && names_model_of(#[trigger] list[i], name);
            assert(names_model_of(session.sync_odoo.declared(file, names.last())[i], name));
        }
    }
}

/// A file waits for no model that it does not name: every model that validation misses is named
/// by one of the file's declarations.
pub proof fn missing_models_are_named(session: SessionInfo, file: SymbolId, name: Seq<char>)
    requires
        file_checked(session, file).missing_models.contains(name),
    ensures
        exists|key: Seq<char>, i: int|
            0 <= i < session.sync_odoo.declared(file, key).len() && names_model_of(
                #[trigger] session.sync_odoo.declared(file, key)[i],
                name,
            ),
{
    let odoo = session.sync_odoo;
    names_miss_what_they_name(
        session,
        file,
        odoo.sym(file).module->0,
        odoo.declared_names(file),
        nothing_found(session),
        name,
    );
}

/// A declaration stays validated whatever comes after it: a model that one of the file's records
/// lacks is among those that the file waits for.
pub proof fn file_waits_for_missing_models(
    session: SessionInfo,
    file: SymbolId,
    key: Seq<char>,
    position: int,
)
    requires
        ({
            let odoo = session.sync_odoo;
            let data = odoo.declared(file, key)[position];
            &&& 0 <= position < odoo.declared(file, key).len()
            &&& data.kind is Record
            &&& odoo.typ(data.file_symbol) == Some(crate::constants::SymType::XML_FILE)
            &&& !model_exists(odoo, data.kind->Record_model)
        }),
    ensures
        file_checked(session, file).missing_models.contains(
            session.sync_odoo.declared(file, key)[position].kind->Record_model,
        ),
{
    let odoo = session.sync_odoo;
    let module = odoo.sym(file).module->0;
    let names = odoo.declared_names(file);
    let list = odoo.declared(file, key);
    let start = nothing_found(session);
    odoo.sym(file).data->XmlFile_0.xml_ids.named_has(key);
    let entry = choose|i: int| 0 <= i < names.len() && names[i] == key;
    let before = names_checked(session, file, module, names.take(entry), start);
    let sofar = list_checked(session, file, module, list.take(position), before);
    let kind = list[position].kind;
    missing_model_is_noted(
        session,
        file,
        module,
        kind->Record_model,
        kind->model_range,
        kind->fields,
        sofar,
    );
    assert(list.take(position + 1).drop_last() =~= list.take(position));
    let noted = list_checked(session, file, module, list.take(position + 1), before);
    assert(noted.missing_models.contains(kind->Record_model));
    rest_of_list_adds(session, file, module, list, position + 1, before);
    assert(names.take(entry + 1).drop_last() =~= names.take(entry));
    rest_of_names_adds(session, file, module, names, entry + 1, start);
}

proof fn rest_of_list_adds(
    session: SessionInfo,
    file: SymbolId,
    module: SymbolId,
    list: Seq<DataView>,
    i: int,
    found: FindingsView,
)
    requires
        0 <= i <= list.len(),
    ensures
        extends(
            session,
            list_checked(session, file, module, list.take(i), found),
            list_checked(session, file, module, list, found),
        ),
    decreases list.len() - i,
{
    if i == list.len() {
        assert(list.take(i) =~= list);
    } else {
        let here = list_checked(session, file, module, list.take(i), found);
        let next = list_checked(session, file, module, list.take(i + 1), found);
        assert(list.take(i + 1).drop_last() =~= list.take(i));
        validation_only_adds(session, file, module, list[i], here);
        rest_of_list_adds(session, file, module, list, i + 1, found);
        extends_compose(
            session,
            here,
            next,
            list_checked(session, file, module, list, found),
        );
    }
}

proof fn rest_of_names_adds(
    session: SessionInfo,
    file: SymbolId,
    module: SymbolId,
    names: Seq<Seq<char>>,
    i: int,
    found: FindingsView,
)
    requires
        0 <= i <= names.len(),
    ensures
        extends(
            session,
            names_checked(session, file, module, names.take(i), found),
            names_checked(session, file, module, names, found),
        ),
    decreases names.len() - i,
{
    if i == names.len() {
        assert(names.take(i) =~= names);
    } else {
        let here = names_checked(session, file, module, names.take(i), found);
        let next = names_checked(session, file, module, names.take(i + 1), found);
        assert(names.take(i + 1).drop_last() =~= names.take(i));
        list_only_adds(session, file, module, session.sync_odoo.declared(file, names[i]), here);
        rest_of_names_adds(session, file, module, names, i + 1, found);
        extends_compose(
            session,
            here,
            next,
            names_checked(session, file, module, names, found),
        );
    }
}

/// When a model changes, the files that were validated against it wait for validation again,
/// unless their module cannot see the change.
pub proof fn changed_model_revalidates(
    a: SessionInfo,
    b: SessionInfo,
    c: SessionInfo,
    file: SymbolId,
    found: FindingsView,
    model: ModelId,
    module_change: Option<SymbolId>,
)
    requires
        a.sync_odoo.live(file),
        model < a.sync_odoo.models.len(),
        validated(a, b, file, found),
        found.model_dependencies.contains(model),
        b.sync_odoo.affected_by(file, module_change),
        told(b, c, model, module_change),
    ensures
        held(c.sync_odoo.rebuild_validation).contains(a.sync_odoo.sym(file).handle),
{
    let x = b.sync_odoo;
    let handle = a.sync_odoo.sym(file).handle;
    assert(x.symbols@[file as int] is Some);
    assert(x.sym(file).handle == handle);
    let changed = x.models@[model as int];
    assert(held(changed.dependents).contains(handle));
    assert(x.symbols@.len() == x.symbols.len());
    members_are_exact(x.symbols@, held(changed.dependents));
    assert(x.dependents(model).contains(file));
    let test = |id: SymbolId| x.affected_by(id, module_change);
    let all = x.dependents(model);
    let i = choose|i: int| 0 <= i < all.len() && all[i] == file;
    all.lemma_filter_contains(test, i);
    let affected = x.affected(model, module_change);
    let k = choose|k: int| 0 <= k < affected.len() && affected[k] == file;
    assert(x.sym(affected[k]).handle == handle);
}

} // verus!
