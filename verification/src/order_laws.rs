//! Lists are gone through in order, and each member once.
use vstd::prelude::*;

use crate::ast_utils::{import_evaluations, ImportResult};
use crate::constants::{ModelId, SymbolId};
use crate::diagnostics::{DiagnosticCode, DiagnosticView};
use crate::evaluation::{evaluation_views, Evaluation, EvaluationView};
use crate::fields::{under, FieldEntry};
use crate::function_symbol::{declared_by, declared_under, flat_views, with_evaluations};
use crate::handles::{ExtDeclaration, Handle};
use crate::hover::{symbol_evaluations, XmlAstResult};
use crate::model_reach::{add_models, delegated_models};
use crate::model_walk::{Entry, EntryView};
use crate::names::NameEntry;
use crate::odoo::{SessionInfo, SyncOdoo};
use crate::xml_arch_builder_rng_validation::{field_children, function_children, list_children, menuitem_children, record_children, record_fields, root_children};
use crate::xml_data::{DataView, FieldView};
use crate::xml_ids::{declared_in, ArchEnv, ArchState};
use crate::xml_node::XmlNode;
use crate::xml_validation::{data_checked, field_checked, fields_checked, list_checked, mandatory_names, names_checked, ref_checked, FindingsView};

verus! {

/// The fields under a name are found in order: those of a list come before those of what follows
/// it, and each once.
pub proof fn under_keeps_order(a: Seq<FieldEntry>, b: Seq<FieldEntry>, name: Seq<char>)
    ensures
        under(a + b, name) == under(a, name) + under(b, name),
        forall|f: FieldEntry| #[trigger]
            under(seq![f], name) == if f.0 == name {
                seq![f.1]
            } else {
                Seq::<EntryView>::empty()
            },
    decreases b.len(),
{
    assert forall|f: FieldEntry| #[trigger] under(seq![f], name) == if f.0 == name {
        seq![f.1]
    } else {
        Seq::<EntryView>::empty()
    } by {
        assert(seq![f].drop_last() =~= Seq::empty());
        assert(under(seq![f].drop_last(), name) =~= Seq::empty());
        assert(seq![f].last() == f);
        assert(Seq::<EntryView>::empty().push(f.1) =~= seq![f.1]);
    }
    if b.len() == 0 {
        assert(a + b =~= a);
        assert(under(a, name) + under(b, name) =~= under(a, name));
    } else {
        under_keeps_order(a, b.drop_last(), name);
        assert((a + b).drop_last() =~= a + b.drop_last());
        assert(under(a + b, name) =~= under(a, name) + under(b, name));
    }
}

/// The evaluations of resolved imports are in the order of the imports, one for each that was
/// found.
pub proof fn imports_keep_order(a: Seq<ImportResult>, b: Seq<ImportResult>)
    ensures
        import_evaluations(a + b) == import_evaluations(a) + import_evaluations(b),
        forall|r: ImportResult| (#[trigger] import_evaluations(seq![r])).len() == if r.found {
            1nat
        } else {
            0nat
        },
    decreases b.len(),
{
    assert forall|r: ImportResult| (#[trigger] import_evaluations(seq![r])).len() == if r.found {
        1nat
    } else {
        0nat
    } by {
        assert(seq![r].drop_last() =~= Seq::empty());
        assert(import_evaluations(seq![r].drop_last()) =~= Seq::empty());
        assert(seq![r].last() == r);
    }
    if b.len() == 0 {
        assert(a + b =~= a);
        assert(import_evaluations(a) + import_evaluations(b) =~= import_evaluations(a));
    } else {
        imports_keep_order(a, b.drop_last());
        assert((a + b).drop_last() =~= a + b.drop_last());
        assert(import_evaluations(a + b) =~= import_evaluations(a) + import_evaluations(b));
    }
}

/// The descriptions of what is hovered over are in the order of the results, one for each symbol.
pub proof fn hovering_keeps_order(a: Seq<XmlAstResult>, b: Seq<XmlAstResult>)
    ensures
        symbol_evaluations(a + b) == symbol_evaluations(a) + symbol_evaluations(b),
        forall|r: XmlAstResult| (#[trigger] symbol_evaluations(seq![r])).len() == if r is SYMBOL {
            1nat
        } else {
            0nat
        },
    decreases b.len(),
{
    assert forall|r: XmlAstResult| (#[trigger] symbol_evaluations(seq![r])).len() == if r
        is SYMBOL {
        1nat
    } else {
        0nat
    } by {
        assert(seq![r].drop_last() =~= Seq::empty());
        assert(symbol_evaluations(seq![r].drop_last()) =~= Seq::empty());
        assert(seq![r].last() == r);
    }
    if b.len() == 0 {
        assert(a + b =~= a);
        assert(symbol_evaluations(a) + symbol_evaluations(b) =~= symbol_evaluations(a));
    } else {
        hovering_keeps_order(a, b.drop_last());
        assert((a + b).drop_last() =~= a + b.drop_last());
        assert(symbol_evaluations(a + b) =~= symbol_evaluations(a) + symbol_evaluations(b));
    }
}

/// The evaluations of several lists follow each other, list by list.
pub proof fn flat_keeps_order(a: Seq<Vec<Evaluation>>, b: Seq<Vec<Evaluation>>)
    ensures
        flat_views(a + b) == flat_views(a) + flat_views(b),
        forall|list: Vec<Evaluation>| #[trigger]
            flat_views(seq![list]) == evaluation_views(list@),
    decreases b.len(),
{
    assert forall|list: Vec<Evaluation>| #[trigger] flat_views(seq![list]) == evaluation_views(
        list@,
    ) by {
        assert(seq![list].drop_last() =~= Seq::empty());
        assert(flat_views(seq![list].drop_last()) =~= Seq::empty());
        assert(seq![list].last() == list);
        assert(flat_views(seq![list]) =~= evaluation_views(list@));
    }
    if b.len() == 0 {
        assert(a + b =~= a);
        assert(flat_views(a) + flat_views(b) =~= flat_views(a));
    } else {
        flat_keeps_order(a, b.drop_last());
        assert((a + b).drop_last() =~= a + b.drop_last());
        assert(flat_views(a + b) =~= flat_views(a) + flat_views(b));
    }
}

/// What declarations hold under a name is in the order of the declarations.
pub proof fn declarations_keep_order(
    a: Seq<ExtDeclaration>,
    b: Seq<ExtDeclaration>,
    name: Seq<char>,
)
    ensures
        declared_under(a + b, name) == declared_under(a, name) + declared_under(b, name),
        forall|d: ExtDeclaration| #[trigger]
            declared_under(seq![d], name) == if d.name@ == name {
                d.symbols@
            } else {
                Seq::<SymbolId>::empty()
            },
    decreases b.len(),
{
    assert forall|d: ExtDeclaration| #[trigger] declared_under(seq![d], name) == if d.name@
        == name {
        d.symbols@
    } else {
        Seq::<SymbolId>::empty()
    } by {
        assert(seq![d].drop_last() =~= Seq::empty());
        assert(declared_under(seq![d].drop_last(), name) =~= Seq::empty());
        assert(seq![d].last() == d);
        assert(Seq::<SymbolId>::empty() + d.symbols@ =~= d.symbols@);
    }
    if b.len() == 0 {
        assert(a + b =~= a);
        assert(declared_under(a, name) + declared_under(b, name) =~= declared_under(a, name));
    } else {
        declarations_keep_order(a, b.drop_last(), name);
        assert((a + b).drop_last() =~= a + b.drop_last());
        assert(declared_under(a + b, name) =~= declared_under(a, name) + declared_under(b, name));
    }
}

/// What several owners declare is in the order of the owners.
pub proof fn owners_keep_order(
    odoo: SyncOdoo,
    a: Seq<SymbolId>,
    b: Seq<SymbolId>,
    handle: Handle,
    name: Seq<char>,
)
    ensures
        declared_by(odoo, a + b, handle, name) == declared_by(odoo, a, handle, name) + declared_by(
            odoo,
            b,
            handle,
            name,
        ),
    decreases b.len(),
{
    if b.len() == 0 {
        assert(a + b =~= a);
        assert(declared_by(odoo, a, handle, name) + declared_by(odoo, b, handle, name)
            =~= declared_by(odoo, a, handle, name));
    } else {
        owners_keep_order(odoo, a, b.drop_last(), handle, name);
        assert((a + b).drop_last() =~= a + b.drop_last());
        assert(declared_by(odoo, a + b, handle, name) =~= declared_by(odoo, a, handle, name)
            + declared_by(odoo, b, handle, name));
    }
}

/// What several files declare under a key is in the order of the files.
pub proof fn files_keep_order(
    odoo: SyncOdoo,
    a: Seq<SymbolId>,
    b: Seq<SymbolId>,
    key: Seq<char>,
)
    ensures
        declared_in(odoo, a + b, key) == declared_in(odoo, a, key) + declared_in(odoo, b, key),
        forall|file: SymbolId| #[trigger]
            declared_in(odoo, seq![file], key) == odoo.declared(file, key),
    decreases b.len(),
{
    assert forall|file: SymbolId| #[trigger] declared_in(odoo, seq![file], key) == odoo.declared(
        file,
        key,
    ) by {
        assert(seq![file].drop_last() =~= Seq::empty());
        assert(declared_in(odoo, seq![file].drop_last(), key) =~= Seq::empty());
        assert(seq![file].last() == file);
        assert(declared_in(odoo, seq![file], key) =~= odoo.declared(file, key));
    }
    if b.len() == 0 {
        assert(a + b =~= a);
        assert(declared_in(odoo, a, key) + declared_in(odoo, b, key) =~= declared_in(
            odoo,
            a,
            key,
        ));
    } else {
        files_keep_order(odoo, a, b.drop_last(), key);
        assert((a + b).drop_last() =~= a + b.drop_last());
        assert(declared_in(odoo, a + b, key) =~= declared_in(odoo, a, key) + declared_in(
            odoo,
            b,
            key,
        ));
    }
}

/// The names of mandatory fields are in the order in which the fields are known.
pub proof fn mandatory_names_keep_order(
    odoo: SyncOdoo,
    a: Seq<NameEntry<Vec<Entry>>>,
    b: Seq<NameEntry<Vec<Entry>>>,
)
    ensures
        mandatory_names(odoo, a + b) == mandatory_names(odoo, a) + mandatory_names(odoo, b),
    decreases b.len(),
{
    if b.len() == 0 {
        assert(a + b =~= a);
        assert(mandatory_names(odoo, a) + mandatory_names(odoo, b) =~= mandatory_names(odoo, a));
    } else {
        mandatory_names_keep_order(odoo, a, b.drop_last());
        assert((a + b).drop_last() =~= a + b.drop_last());
        assert(mandatory_names(odoo, a + b) =~= mandatory_names(odoo, a) + mandatory_names(
            odoo,
            b,
        ));
    }
}

/// Evaluations are added in order, behind those that were there: one that is new comes last, and
/// one that was there stays where it was.
pub proof fn evaluations_come_last(
    list: Seq<EvaluationView>,
    a: Seq<EvaluationView>,
    b: Seq<EvaluationView>,
)
    ensures
        with_evaluations(list, a + b) == with_evaluations(with_evaluations(list, a), b),
        forall|e: EvaluationView| #[trigger]
            with_evaluations(list, seq![e]) == if list.contains(e) {
                list
            } else {
                list.push(e)
            },
    decreases b.len(),
{
    assert forall|e: EvaluationView| #[trigger]
        with_evaluations(list, seq![e]) == if list.contains(e) {
        list
    } else {
        list.push(e)
    } by {
        assert(seq![e].drop_last() =~= Seq::empty());
        assert(with_evaluations(list, seq![e].drop_last()) == list);
        assert(seq![e].last() == e);
    }
    if b.len() == 0 {
        assert(a + b =~= a);
    } else {
        evaluations_come_last(list, a, b.drop_last());
        assert((a + b).drop_last() =~= a + b.drop_last());
    }
}

/// The models that classes delegate to come in the order of the classes, and for each class in
/// the order in which it names them.
pub proof fn delegated_models_keep_order(
    odoo: SyncOdoo,
    a: Seq<SymbolId>,
    b: Seq<SymbolId>,
    id: SymbolId,
)
    ensures
        delegated_models(odoo, a).is_prefix_of(delegated_models(odoo, a + b)),
        delegated_models(odoo, seq![id]) == add_models(odoo, odoo.delegate_names(id), Seq::empty()),
    decreases b.len(),
{
    assert(seq![id].drop_last() =~= Seq::empty());
    assert(delegated_models(odoo, seq![id].drop_last()) =~= Seq::empty());
    assert(seq![id].last() == id);
    if b.len() == 0 {
        assert(a + b =~= a);
    } else {
        delegated_models_keep_order(odoo, a, b.drop_last(), id);
        assert((a + b).drop_last() =~= a + b.drop_last());
        let before = delegated_models(odoo, a + b.drop_last());
        let names = odoo.delegate_names(b.last());
        named_models_come_last(odoo, names, Seq::empty(), before);
        assert(names + Seq::<Seq<char>>::empty() =~= names);
        assert(delegated_models(odoo, a + b) == add_models(odoo, names, before));
        let all = add_models(odoo, names, before);
        assert(before.is_prefix_of(all));
        assert(delegated_models(odoo, a) =~= all.take(delegated_models(odoo, a).len() as int));
    }
}

/// Models are added in the order of their names, behind those that were there: one that is new
/// comes last, and a name of no model adds nothing.
pub proof fn named_models_come_last(
    odoo: SyncOdoo,
    a: Seq<Seq<char>>,
    b: Seq<Seq<char>>,
    models: Seq<ModelId>,
)
    ensures
        models.is_prefix_of(add_models(odoo, a, models)),
        add_models(odoo, a + b, models) == add_models(odoo, b, add_models(odoo, a, models)),
        forall|name: Seq<char>| #[trigger]
            add_models(odoo, seq![name], models) == match odoo.model_at(name) {
                Some(model) => if models.contains(model) {
                    models
                } else {
                    models.push(model)
                },
                None => models,
            },
    decreases a.len() + b.len(),
{
    assert forall|name: Seq<char>| #[trigger]
        add_models(odoo, seq![name], models) == match odoo.model_at(name) {
        Some(model) => if models.contains(model) {
            models
        } else {
            models.push(model)
        },
        None => models,
    } by {
        assert(seq![name].drop_last() =~= Seq::empty());
        assert(add_models(odoo, seq![name].drop_last(), models) == models);
        assert(seq![name].last() == name);
    }
    if a.len() > 0 {
        named_models_come_last(odoo, a.drop_last(), Seq::empty(), models);
        let before = add_models(odoo, a.drop_last(), models);
        let all = add_models(odoo, a, models);
        assert(models =~= all.take(models.len() as int));
    }
    if b.len() == 0 {
        assert(a + b =~= a);
    } else {
        named_models_come_last(odoo, a, b.drop_last(), models);
        assert((a + b).drop_last() =~= a + b.drop_last());
    }
}

/// Whether `b` is `a` with a single diagnostic added, or none.
pub open spec fn adds_at_most_one(a: Seq<DiagnosticView>, b: Seq<DiagnosticView>) -> bool {
    b == a || b.len() == a.len() + 1 && b.drop_last() == a
}

/// A field adds at most two diagnostics: first at most one for its reference, then at most one
/// for itself or its text.
pub proof fn field_adds_little(
    session: SessionInfo,
    file: SymbolId,
    model: Seq<char>,
    known: Set<Seq<char>>,
    field: FieldView,
    found: FindingsView,
)
    ensures
        ({
            let after = field_checked(session, file, model, known, field, found).diagnostics;
            exists|middle: Seq<DiagnosticView>| #[trigger]
                adds_at_most_one(found.diagnostics, middle) && adds_at_most_one(middle, after) && (
                field.ref_key is None ==> middle == found.diagnostics)
        }),
{
    let middle = ref_checked(session, field, found).diagnostics;
    let after = field_checked(session, file, model, known, field, found).diagnostics;
    if middle.len() > found.diagnostics.len() {
        assert(middle.drop_last() =~= found.diagnostics);
    }
    if after.len() > middle.len() {
        assert(after.drop_last() =~= middle);
    }
    assert(adds_at_most_one(found.diagnostics, middle));
}

/// A declaration that is no record adds nothing, and a record without fields at most one
/// diagnostic: only with its model noted as missing.
pub proof fn declaration_adds_little(
    session: SessionInfo,
    file: SymbolId,
    module: SymbolId,
    data: DataView,
    found: FindingsView,
)
    requires
        data.kind is Record ==> data.kind->Record_fields.len() == 0,
    ensures
        ({
            let after = data_checked(session, file, module, data, found);
            &&& !(data.kind is Record) ==> after == found
            &&& adds_at_most_one(found.diagnostics, after.diagnostics)
            &&& after.diagnostics != found.diagnostics ==> after.missing_models.contains(
                data.kind->Record_model,
            )
        }),
{
    let after = data_checked(session, file, module, data, found);
    if after.diagnostics.len() > found.diagnostics.len() {
        assert(after.diagnostics.drop_last() =~= found.diagnostics);
        assert(after.missing_models.contains(data.kind->Record_model));
    }
}

/// The fields of a record are checked in order, each once.
pub proof fn fields_are_checked_in_turn(
    session: SessionInfo,
    file: SymbolId,
    model: Seq<char>,
    known: Set<Seq<char>>,
    a: Seq<FieldView>,
    b: Seq<FieldView>,
    found: FindingsView,
)
    ensures
        fields_checked(session, file, model, known, a + b, found) == fields_checked(
            session,
            file,
            model,
            known,
            b,
            fields_checked(session, file, model, known, a, found),
        ),
        forall|f: FieldView| #[trigger]
            fields_checked(session, file, model, known, seq![f], found) == field_checked(
                session,
                file,
                model,
                known,
                f,
                found,
            ),
    decreases b.len(),
{
    assert forall|f: FieldView| #[trigger]
        fields_checked(session, file, model, known, seq![f], found) == field_checked(
        session,
        file,
        model,
        known,
        f,
        found,
    ) by {
        assert(seq![f].drop_last() =~= Seq::empty());
        assert(fields_checked(session, file, model, known, seq![f].drop_last(), found) == found);
        assert(seq![f].last() == f);
    }
    if b.len() == 0 {
        assert(a + b =~= a);
    } else {
        fields_are_checked_in_turn(session, file, model, known, a, b.drop_last(), found);
        assert((a + b).drop_last() =~= a + b.drop_last());
    }
}

/// Declarations are checked in order, each once.
pub proof fn declarations_are_checked_in_turn(
    session: SessionInfo,
    file: SymbolId,
    module: SymbolId,
    a: Seq<DataView>,
    b: Seq<DataView>,
    found: FindingsView,
)
    ensures
        list_checked(session, file, module, a + b, found) == list_checked(
            session,
            file,
            module,
            b,
            list_checked(session, file, module, a, found),
        ),
        forall|data: DataView| #[trigger]
            list_checked(session, file, module, seq![data], found) == data_checked(
                session,
                file,
                module,
                data,
                found,
            ),
    decreases b.len(),
{
    assert forall|data: DataView| #[trigger] list_checked(session, file, module, seq![data], found)
        == data_checked(session, file, module, data, found) by {
        assert(seq![data].drop_last() =~= Seq::empty());
        assert(list_checked(session, file, module, seq![data].drop_last(), found) == found);
        assert(seq![data].last() == data);
    }
    if b.len() == 0 {
        assert(a + b =~= a);
    } else {
        declarations_are_checked_in_turn(session, file, module, a, b.drop_last(), found);
        assert((a + b).drop_last() =~= a + b.drop_last());
    }
}

/// IDs are checked in order, each with all that is declared under it.
pub proof fn ids_are_checked_in_turn(
    session: SessionInfo,
    file: SymbolId,
    module: SymbolId,
    a: Seq<Seq<char>>,
    b: Seq<Seq<char>>,
    found: FindingsView,
)
    ensures
        names_checked(session, file, module, a + b, found) == names_checked(
            session,
            file,
            module,
            b,
            names_checked(session, file, module, a, found),
        ),
        forall|name: Seq<char>| #[trigger]
            names_checked(session, file, module, seq![name], found) == list_checked(
                session,
                file,
                module,
                session.sync_odoo.declared(file, name),
                found,
            ),
    decreases b.len(),
{
    assert forall|name: Seq<char>| #[trigger]
        names_checked(session, file, module, seq![name], found) == list_checked(
        session,
        file,
        module,
        session.sync_odoo.declared(file, name),
        found,
    ) by {
        assert(seq![name].drop_last() =~= Seq::empty());
        assert(names_checked(session, file, module, seq![name].drop_last(), found) == found);
        assert(seq![name].last() == name);
    }
    if b.len() == 0 {
        assert(a + b =~= a);
    } else {
        ids_are_checked_in_turn(session, file, module, a, b.drop_last(), found);
        assert((a + b).drop_last() =~= a + b.drop_last());
    }
}

/// What stands in a root is loaded in order.
pub proof fn roots_are_loaded_in_turn(
    env: ArchEnv,
    state: ArchState,
    a: Seq<XmlNode>,
    b: Seq<XmlNode>,
    tag: Seq<char>,
)
    ensures
        root_children(env, state, a + b, tag) == root_children(
            env,
            root_children(env, state, a, tag),
            b,
            tag,
        ),
    decreases b.len(),
{
    if b.len() == 0 {
        assert(a + b =~= a);
    } else {
        roots_are_loaded_in_turn(env, state, a, b.drop_last(), tag);
        assert((a + b).drop_last() =~= a + b.drop_last());
    }
}

/// What stands in a menu item is loaded in order.
pub proof fn menus_are_loaded_in_turn(
    env: ArchEnv,
    state: ArchState,
    a: Seq<XmlNode>,
    b: Seq<XmlNode>,
)
    ensures
        menuitem_children(env, state, a + b) == menuitem_children(
            env,
            menuitem_children(env, state, a),
            b,
        ),
    decreases b.len(),
{
    if b.len() == 0 {
        assert(a + b =~= a);
    } else {
        menus_are_loaded_in_turn(env, state, a, b.drop_last());
        assert((a + b).drop_last() =~= a + b.drop_last());
    }
}

/// What stands in a record is loaded in order, and its fields are declared in that order.
pub proof fn records_are_loaded_in_turn(
    env: ArchEnv,
    state: ArchState,
    a: Seq<XmlNode>,
    b: Seq<XmlNode>,
)
    ensures
        record_children(env, state, a + b) == record_children(
            env,
            record_children(env, state, a),
            b,
        ),
        record_fields(a + b) == record_fields(a) + record_fields(b),
    decreases b.len(),
{
    if b.len() == 0 {
        assert(a + b =~= a);
        assert(record_fields(a) + record_fields(b) =~= record_fields(a));
    } else {
        records_are_loaded_in_turn(env, state, a, b.drop_last());
        assert((a + b).drop_last() =~= a + b.drop_last());
        assert(record_fields(a + b) =~= record_fields(a) + record_fields(b));
    }
}

/// What stands in a field is loaded in order.
pub proof fn fields_are_loaded_in_turn(
    env: ArchEnv,
    state: ArchState,
    a: Seq<XmlNode>,
    b: Seq<XmlNode>,
    free: bool,
)
    ensures
        field_children(env, state, a + b, free) == field_children(
            env,
            field_children(env, state, a, free),
            b,
            free,
        ),
    decreases b.len(),
{
    if b.len() == 0 {
        assert(a + b =~= a);
    } else {
        fields_are_loaded_in_turn(env, state, a, b.drop_last(), free);
        assert((a + b).drop_last() =~= a + b.drop_last());
    }
}

/// What stands in a function, or in a list, is checked in order.
pub proof fn arguments_are_checked_in_turn(
    disabled: Set<DiagnosticCode>,
    found: Seq<DiagnosticView>,
    a: Seq<XmlNode>,
    b: Seq<XmlNode>,
    has_eval: bool,
)
    ensures
        function_children(disabled, found, a + b, has_eval) == function_children(
            disabled,
            function_children(disabled, found, a, has_eval),
            b,
            has_eval,
        ),
        list_children(disabled, found, a + b) == list_children(
            disabled,
            list_children(disabled, found, a),
            b,
        ),
    decreases b.len(),
{
    if b.len() == 0 {
        assert(a + b =~= a);
    } else {
        arguments_are_checked_in_turn(disabled, found, a, b.drop_last(), has_eval);
        assert((a + b).drop_last() =~= a + b.drop_last());
    }
}

} // verus!
