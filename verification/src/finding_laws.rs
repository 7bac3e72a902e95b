//! What validation of an XML data file finds, rule by rule.
use vstd::prelude::*;

use crate::constants::{ModelId, SymType, SymbolId};
use crate::diagnostics::{DiagnosticCode, DiagnosticView, Position, Range};
use crate::fields::all_fields_of;
use crate::handles::held;
use crate::listing_laws::{belongs, classes_belong, filter_keeps_passing, has_module, in_deps_is_listed, mentions, under_is_by_name};
use crate::odoo::{members_are_exact, SessionInfo, SyncOdoo};
use crate::text::{split_seq, texts};
use crate::text_laws::{first_at, occurring_comes_first, occurs, occurs_once_or_more, occurs_twice, only_at, split_in_more, split_in_two, split_of_one, split_starts};
use crate::xml_data::{data_views, DataKind, DataView, FieldView};
use crate::xml_validation::{data_checked, field_checked, field_names, fields_checked, file_checked, files_of, is_translation, list_checked, meant_field, model_exists, names_checked, nothing_found, ref_checked, FindingsView};
use crate::xml_validation_laws::checked_is_declared;

verus! {

/// Whether the version knows translations of fields, written as `name@lang`: 18.2 and later.
pub open spec fn knows_translations(odoo: SyncOdoo) -> bool {
    odoo.full_version.major > 18 || odoo.full_version.major == 18 && odoo.full_version.minor >= 2
}

/// Whether a field is written as the translation of another.
pub open spec fn is_translated(odoo: SyncOdoo, name: Seq<char>) -> bool {
    knows_translations(odoo) && occurs(name, '@')
}

/// Whether `meant` is the name of the field that is written as `name`: of a translation, what
/// stands before the first `@`.
pub open spec fn means(odoo: SyncOdoo, name: Seq<char>, meant: Seq<char>) -> bool {
    if is_translated(odoo, name) {
        exists|p: int| #[trigger] first_at(name, '@', p) && meant == name.take(p)
    } else {
        meant == name
    }
}

/// Whether the class at `id` defines the model, rather than extend it, and a module can see it:
/// the class has no module, or that module has it.
pub open spec fn defines(
    odoo: SyncOdoo,
    model: ModelId,
    from: Option<SymbolId>,
    id: SymbolId,
) -> bool {
    let symbol = odoo.symbols@[id as int]->0;
    let data = symbol.data->Class_0.model->0;
    &&& belongs(odoo, model, id)
    &&& !mentions(data.inherit@, data.name@)
    &&& symbol.module is None || from is None || has_module(odoo, from->0, symbol.module->0)
}

/// Whether the model is called `name`.
pub open spec fn is_called(odoo: SyncOdoo, model: ModelId, name: Seq<char>) -> bool {
    model < odoo.models.len() && odoo.models@[model as int].name@ == name
}

/// Whether there is a model called `name` with any class.
pub open spec fn is_model(odoo: SyncOdoo, name: Seq<char>) -> bool {
    exists|model: ModelId, id: SymbolId| #[trigger]
        is_called(odoo, model, name) && #[trigger] belongs(odoo, model, id)
}

/// Whether a module can see a class that defines the model called `name`.
pub open spec fn is_seen(odoo: SyncOdoo, from: Option<SymbolId>, name: Seq<char>) -> bool {
    exists|model: ModelId, id: SymbolId| #[trigger]
        is_called(odoo, model, name) && #[trigger] defines(odoo, model, from, id)
}

/// Whether the class at `id` is the first that defines the model called `name` and that a module
/// can see.
pub open spec fn defines_first(
    odoo: SyncOdoo,
    from: Option<SymbolId>,
    name: Seq<char>,
    id: SymbolId,
) -> bool {
    exists|model: ModelId| #[trigger]
        is_called(odoo, model, name) && defines(odoo, model, from, id) && forall|other: SymbolId|
         #[trigger]
            defines(odoo, model, from, other) ==> id <= other
}

/// The names of the fields that a module sees on the model called `name`: those of the first
/// class that defines it.
pub open spec fn fields_seen(odoo: SyncOdoo, module: SymbolId, name: Seq<char>) -> Set<Seq<char>> {
    Set::new(
        |field: Seq<char>|
            exists|id: SymbolId, i: int| #[trigger]
                defines_first(odoo, Some(module), name, id) && 0 <= i < all_fields_of(
                    odoo,
                    id,
                    Some(module),
                ).len() && (#[trigger] all_fields_of(odoo, id, Some(module))[i]).0 == field,
    )
}

/// Whether there is a module called `name`.
pub open spec fn is_module_name(odoo: SyncOdoo, name: Seq<char>) -> bool {
    exists|i: int|
        0 <= i < odoo.modules.entries@.len() && (#[trigger] odoo.modules.entries@[i]).name@ == name
}

/// Whether a diagnostic points to a byte range: its offsets stand for lines.
pub open spec fn points_at(d: DiagnosticView, range: std::ops::Range<usize>) -> bool {
    d.range == Range {
        start: Position { line: #[verifier::truncate] (range.start as u32), character: 0 },
        end: Position { line: #[verifier::truncate] (range.end as u32), character: 0 },
    }
}

/// Whether the XML ID in the `ref` attribute of a field gives rise to a diagnostic: it is empty,
/// it names a module that is not known, or it has more than one dot.
pub open spec fn ref_gives(odoo: SyncOdoo, field: FieldView, d: DiagnosticView) -> bool {
    field.ref_key matches Some(key) && points_at(d, key.1) && {
        ||| key.0.len() == 0 && d.code == DiagnosticCode::OLS05039 && d.args == Seq::<
            Seq<char>,
        >::empty()
        ||| (exists|p: int| #[trigger] only_at(key.0, '.', p) && !is_module_name(odoo, key.0.take(p)))
            && d.code == DiagnosticCode::OLS05003 && d.args == Seq::<Seq<char>>::empty()
        ||| occurs_twice(key.0, '.') && d.code == DiagnosticCode::OLS05051 && d.args == seq![key.0]
    }
}

/// Whether a text that names a model gives rise to a diagnostic: there is no such model, or the
/// file's module sees no class that defines it.
pub open spec fn text_gives(
    odoo: SyncOdoo,
    file: SymbolId,
    model: Seq<char>,
    text: Seq<char>,
    d: DiagnosticView,
) -> bool {
    let module = odoo.symbols@[file as int]->0.module;
    if !is_model(odoo, text) {
        d.code == DiagnosticCode::OLS05056 && d.args == seq![text, model]
    } else {
        module is Some && !is_seen(odoo, module, text) && d.code == DiagnosticCode::OLS05055
            && d.args == seq![text, odoo.symbols@[module->0 as int]->0.name@]
    }
}

/// Whether the text of a field is to name a model.
pub open spec fn holds_model_name(model: Seq<char>, field: Seq<char>) -> bool {
    model == "ir.ui.view"@ && field == "model"@ || model == "ir.actions.act_window"@ && field
        == "res_model"@
}

/// Whether one of the known fields is meant by `name`.
pub open spec fn is_known(odoo: SyncOdoo, known: Set<Seq<char>>, name: Seq<char>) -> bool {
    exists|meant: Seq<char>| #[trigger] means(odoo, name, meant) && known.contains(meant)
}

/// Whether a field of a record gives rise to a diagnostic.
///
/// A field that its model does not have is reported, whatever the field holds, unless it is
/// written as a translation; one that the model has is not.
pub open spec fn field_gives(
    odoo: SyncOdoo,
    file: SymbolId,
    model: Seq<char>,
    known: Set<Seq<char>>,
    field: FieldView,
    d: DiagnosticView,
) -> bool {
    ||| ref_gives(odoo, field, d)
    ||| {
        &&& !is_known(odoo, known, field.name)
        &&& !is_translated(odoo, field.name)
        &&& d.code == DiagnosticCode::OLS05057
        &&& d.args == seq![field.name, model]
        &&& points_at(d, field.range)
    }
    ||| {
        &&& is_known(odoo, known, field.name)
        &&& exists|meant: Seq<char>| #[trigger]
            means(odoo, field.name, meant) && holds_model_name(model, meant)
        &&& field.text is Some && field.text_range is Some
        &&& points_at(d, field.text_range->0)
        &&& text_gives(odoo, file, model, field.text->0, d)
    }
}

/// Whether a record of the model called `name` gives rise to a diagnostic: there is no such
/// model, the module sees no class that defines it, or a field does.
pub open spec fn record_gives(
    odoo: SyncOdoo,
    file: SymbolId,
    module: SymbolId,
    name: Seq<char>,
    range: std::ops::Range<usize>,
    fields: Seq<FieldView>,
    d: DiagnosticView,
) -> bool {
    if !is_model(odoo, name) {
        d.code == DiagnosticCode::OLS05056 && d.args == seq![name] && points_at(d, range)
    } else if !is_seen(odoo, Some(module), name) {
        d.code == DiagnosticCode::OLS05055 && d.args == seq![
            name,
            odoo.symbols@[module as int]->0.name@,
        ] && points_at(d, range)
    } else {
        exists|i: int|
            0 <= i < fields.len() && field_gives(
                odoo,
                file,
                name,
                fields_seen(odoo, module, name),
                #[trigger] fields[i],
                d,
            )
    }
}

/// Whether a declaration is checked: it is a record, and its file is there.
pub open spec fn is_checked(odoo: SyncOdoo, data: DataView) -> bool {
    data.kind is Record && odoo.typ(data.file_symbol) == Some(SymType::XML_FILE)
}

/// Whether a declaration gives rise to a diagnostic.
pub open spec fn data_gives(
    odoo: SyncOdoo,
    file: SymbolId,
    module: SymbolId,
    data: DataView,
    d: DiagnosticView,
) -> bool {
    is_checked(odoo, data) && record_gives(
        odoo,
        file,
        module,
        data.kind->Record_model,
        data.kind->model_range,
        data.kind->fields,
        d,
    )
}

/// Whether a record leaves a model missing: its own, which does not exist or is not seen, or one
/// that the text of a field names and that does not exist.
pub open spec fn data_misses(
    odoo: SyncOdoo,
    module: SymbolId,
    data: DataView,
    name: Seq<char>,
) -> bool {
    let model = data.kind->Record_model;
    let fields = data.kind->fields;
    is_checked(odoo, data) && if is_seen(odoo, Some(module), model) {
        exists|i: int|
            0 <= i < fields.len() && field_misses(
                odoo,
                model,
                fields_seen(odoo, module, model),
                #[trigger] fields[i],
                name,
            )
    } else {
        name == model
    }
}

/// Whether a field names a model that does not exist.
pub open spec fn field_misses(
    odoo: SyncOdoo,
    model: Seq<char>,
    known: Set<Seq<char>>,
    field: FieldView,
    name: Seq<char>,
) -> bool {
    &&& is_known(odoo, known, field.name)
    &&& exists|meant: Seq<char>| #[trigger]
        means(odoo, field.name, meant) && holds_model_name(model, meant)
    &&& field.text == Some(name) && field.text_range is Some
    &&& !is_model(odoo, name)
}

/// What a field's name means is told by its first `@`, if the version knows translations.
pub proof fn meant_is_before_at(odoo: SyncOdoo, name: Seq<char>)
    ensures
        is_translation(odoo, name) == is_translated(odoo, name),
        forall|meant: Seq<char>| #[trigger]
            means(odoo, name, meant) <==> meant == meant_field(odoo, name),
{
    occurring_comes_first(name, '@');
    if occurs(name, '@') {
        let p = choose|p: int| first_at(name, '@', p);
        split_starts(name, '@', p);
        assert forall|q: int| first_at(name, '@', q) implies q == p by {
            assert(!(q < p) && !(p < q));
        }
    } else {
        split_of_one(name, '@');
    }
}

/// The classes that define a model, as a module sees them, are those of the model that do not
/// extend it and that have no module or one that the module has; the first comes first.
pub proof fn main_symbols_define(odoo: SyncOdoo, model: ModelId, from: Option<SymbolId>)
    requires
        model < odoo.models.len(),
    ensures
        forall|id: SymbolId| #[trigger]
            odoo.main_symbols(model, from).contains(id) <==> defines(odoo, model, from, id),
        forall|i: int, j: int|
            0 <= i < j < odoo.main_symbols(model, from).len() ==> #[trigger] odoo.main_symbols(
                model,
                from,
            )[i] < #[trigger] odoo.main_symbols(model, from)[j],
{
    let all = odoo.classes(model);
    let test = |id: SymbolId| odoo.main_and_visible(from, id);
    let mains = odoo.main_symbols(model, from);
    classes_belong(odoo, model);
    assert(odoo.symbols@.len() == odoo.symbols.len());
    members_are_exact(odoo.symbols@, held(odoo.models@[model as int].symbols));
    assert forall|id: SymbolId| #[trigger] mains.contains(id) <==> defines(
        odoo,
        model,
        from,
        id,
    ) by {
        main_is_visible(odoo, from, id);
        assert(all.contains(id) <==> belongs(odoo, model, id));
        filter_keeps_passing(all, test, id);
    }
    filter_ascends(all, test);
}

proof fn main_is_visible(odoo: SyncOdoo, from: Option<SymbolId>, id: SymbolId)
    ensures
        odoo.main_and_visible(from, id) == ({
            let symbol = odoo.symbols@[id as int]->0;
            let data = symbol.data->Class_0.model->0;
            &&& !mentions(data.inherit@, data.name@)
            &&& symbol.module is None || from is None || has_module(
                odoo,
                from->0,
                symbol.module->0,
            )
        }),
{
    let data = odoo.model_data(id);
    if odoo.sym(id).module is Some && from is Some {
        in_deps_is_listed(odoo, from->0, odoo.sym(id).module->0);
    }
    if mentions(data.inherit@, data.name@) {
        let k = choose|k: int|
            0 <= k < data.inherit@.len() && (#[trigger] data.inherit@[k])@ == data.name@;
        assert(texts(data.inherit@)[k] == data.name@);
    }
    if texts(data.inherit@).contains(data.name@) {
        let k = choose|k: int|
            0 <= k < texts(data.inherit@).len() && texts(data.inherit@)[k] == data.name@;
        assert(data.inherit@[k]@ == data.name@);
    }
}

proof fn filter_ascends(s: Seq<SymbolId>, test: spec_fn(SymbolId) -> bool)
    requires
        forall|i: int, j: int| 0 <= i < j < s.len() ==> s[i] < s[j],
    ensures
        forall|i: int, j: int|
            0 <= i < j < s.filter(test).len() ==> #[trigger] s.filter(test)[i]
                < #[trigger] s.filter(test)[j],
    decreases s.len(),
{
    reveal(Seq::filter);
    if s.len() > 0 {
        let front = s.drop_last();
        filter_ascends(front, test);
        if test(s.last()) {
            let kept = front.filter(test);
            assert forall|i: int, j: int| 0 <= i < j < kept.push(s.last()).len() implies kept.push(
                s.last(),
            )[i] < kept.push(s.last())[j] by {
                if j == kept.len() {
                    assert(kept.contains(kept[i]));
                    front.lemma_filter_contains_rev(test, kept[i]);
                    let k = choose|k: int| 0 <= k < front.len() && front[k] == kept[i];
                    assert(s[k] < s[s.len() - 1]);
                }
            }
        }
    }
}

/// A model exists if the one of its name has classes, and a module sees it if the module sees a
/// class that defines it.
pub proof fn model_is_there(odoo: SyncOdoo, from: Option<SymbolId>, name: Seq<char>)
    requires
        odoo.wf(),
    ensures
        model_exists(odoo, name) == is_model(odoo, name),
        model_exists(odoo, name) ==> is_called(odoo, odoo.model_at(name)->0, name),
        model_exists(odoo, name) ==> (is_seen(odoo, from, name) <==> odoo.main_symbols(
            odoo.model_at(name)->0,
            from,
        ).len() > 0),
        is_seen(odoo, from, name) ==> is_model(odoo, name),
        forall|model: ModelId| #[trigger]
            is_called(odoo, model, name) ==> odoo.model_at(name) == Some(model),
{
    assert forall|model: ModelId| #[trigger] is_called(odoo, model, name) implies odoo.model_at(
        name,
    ) == Some(model) by {
        odoo.named_is_found(model as int);
    }
    if odoo.model_at(name) is Some {
        let model = odoo.model_at(name)->0;
        odoo.model_at_is_first(name);
        classes_belong(odoo, model);
        main_symbols_define(odoo, model, from);
        assert(is_called(odoo, model, name));
        if odoo.classes(model).len() > 0 {
            assert(odoo.classes(model).contains(odoo.classes(model)[0]));
            assert(belongs(odoo, model, odoo.classes(model)[0]));
        }
        let mains = odoo.main_symbols(model, from);
        if mains.len() > 0 {
            assert(mains.contains(mains[0]));
            assert(defines(odoo, model, from, mains[0]));
        }
    }
    if is_model(odoo, name) {
        let (model, id) = choose|model: ModelId, id: SymbolId| #[trigger]
            is_called(odoo, model, name) && #[trigger] belongs(odoo, model, id);
        assert(odoo.classes(model).contains(id));
    }
    if is_seen(odoo, from, name) {
        let (model, id) = choose|model: ModelId, id: SymbolId| #[trigger]
            is_called(odoo, model, name) && #[trigger] defines(odoo, model, from, id);
        assert(belongs(odoo, model, id));
        assert(odoo.main_symbols(model, from).contains(id));
    }
}

proof fn fields_are_seen(odoo: SyncOdoo, module: SymbolId, name: Seq<char>)
    requires
        odoo.wf(),
        model_exists(odoo, name),
        odoo.main_symbols(odoo.model_at(name)->0, Some(module)).len() > 0,
    ensures
        field_names(
            odoo,
            odoo.main_symbols(odoo.model_at(name)->0, Some(module))[0],
            module,
        ) == fields_seen(odoo, module, name),
{
    let model = odoo.model_at(name)->0;
    let mains = odoo.main_symbols(model, Some(module));
    model_is_there(odoo, Some(module), name);
    main_symbols_define(odoo, model, Some(module));
    assert(mains.contains(mains[0]));
    assert forall|other: SymbolId| #[trigger]
        defines(odoo, model, Some(module), other) implies mains[0] <= other by {
        assert(mains.contains(other));
        let k = choose|k: int| 0 <= k < mains.len() && mains[k] == other;
        if k > 0 {
            assert(mains[0] < mains[k]);
        }
    }
    assert(is_called(odoo, model, name));
    assert(defines_first(odoo, Some(module), name, mains[0]));
    assert forall|id: SymbolId| #[trigger]
        defines_first(odoo, Some(module), name, id) implies id == mains[0] by {
        let m = choose|m: ModelId| #[trigger]
            is_called(odoo, m, name) && defines(odoo, m, Some(module), id) && forall|
                other: SymbolId,
            | #[trigger]
                defines(odoo, m, Some(module), other) ==> id <= other;
        assert(m == model);
        assert(defines(odoo, model, Some(module), mains[0]));
    }
    let all = all_fields_of(odoo, mains[0], Some(module));
    assert forall|field: Seq<char>| field_names(odoo, mains[0], module).contains(field)
        == fields_seen(odoo, module, name).contains(field) by {
        under_is_by_name(all, field, arbitrary());
        if field_names(odoo, mains[0], module).contains(field) {
            let i = choose|i: int| 0 <= i < all.len() && (#[trigger] all[i]).0 == field;
            assert(defines_first(odoo, Some(module), name, mains[0]) && all_fields_of(
                odoo,
                mains[0],
                Some(module),
            )[i].0 == field);
        }
    }
    assert(field_names(odoo, mains[0], module) =~= fields_seen(odoo, module, name));
}

proof fn pushed<T>(s: Seq<T>, x: T, e: T)
    ensures
        s.push(x).contains(e) <==> s.contains(e) || e == x,
{
    if s.contains(e) {
        let i = choose|i: int| 0 <= i < s.len() && s[i] == e;
        assert(s.push(x)[i] == e);
    }
    assert(s.push(x)[s.len() as int] == x);
}

proof fn flagged(
    session: SessionInfo,
    found: FindingsView,
    code: DiagnosticCode,
    args: Seq<Seq<char>>,
    range: std::ops::Range<usize>,
    d: DiagnosticView,
)
    ensures
        found.flag(session, code, args, range).diagnostics.contains(d)
            <==> found.diagnostics.contains(d) || !session.disabled().contains(d.code) && d.code
            == code && d.args == args && points_at(d, range),
{
    let new = DiagnosticView {
        code,
        args,
        range: Range {
            start: Position { line: #[verifier::truncate] (range.start as u32), character: 0 },
            end: Position { line: #[verifier::truncate] (range.end as u32), character: 0 },
        },
    };
    pushed(found.diagnostics, new, d);
}

proof fn ref_gives_what_is_found(
    session: SessionInfo,
    field: FieldView,
    found: FindingsView,
    d: DiagnosticView,
)
    ensures
        ref_checked(session, field, found).diagnostics.contains(d) <==> found.diagnostics.contains(
            d,
        ) || !session.disabled().contains(d.code) && ref_gives(session.sync_odoo, field, d),
        ref_checked(session, field, found).missing_models == found.missing_models,
{
    let odoo = session.sync_odoo;
    if let Some(key) = field.ref_key {
        let text = key.0;
        occurs_once_or_more(text, '.');
        if !occurs(text, '.') {
            split_of_one(text, '.');
            assert(seq![text].len() == 1 && seq![text][0] == text);
            flagged(session, found, DiagnosticCode::OLS05039, seq![], key.1, d);
            assert forall|p: int| !only_at(text, '.', p) by {}
        } else if occurs_twice(text, '.') {
            split_in_more(text, '.');
            flagged(session, found, DiagnosticCode::OLS05051, seq![text], key.1, d);
            assert forall|p: int| !only_at(text, '.', p) by {}
        } else {
            let p = choose|p: int| only_at(text, '.', p);
            split_in_two(text, '.', p);
            assert forall|q: int| #[trigger] only_at(text, '.', q) implies q == p by {}
            flagged(session, found, DiagnosticCode::OLS05003, seq![], key.1, d);
            odoo.modules.named_has(text.take(p));
            if is_module_name(odoo, text.take(p)) {
                let i = choose|i: int|
                    0 <= i < odoo.modules.entries@.len() && (#[trigger] odoo.modules.entries@[i]).name@
                        == text.take(p);
                assert(odoo.modules.names()[i] == text.take(p));
            }
            if odoo.modules.names().contains(text.take(p)) {
                let i = choose|i: int|
                    0 <= i < odoo.modules.names().len() && odoo.modules.names()[i] == text.take(p);
                assert(odoo.modules.entries@[i].name@ == text.take(p));
            }
            assert(seq![text.take(p), text.skip(p + 1)][0] == text.take(p));
        }
    }
}

proof fn field_gives_what_is_found(
    session: SessionInfo,
    file: SymbolId,
    model: Seq<char>,
    known: Set<Seq<char>>,
    field: FieldView,
    found: FindingsView,
    d: DiagnosticView,
    name: Seq<char>,
)
    requires
        session.sync_odoo.wf(),
    ensures
        ({
            let after = field_checked(session, file, model, known, field, found);
            &&& after.diagnostics.contains(d) <==> found.diagnostics.contains(d)
                || !session.disabled().contains(d.code) && field_gives(
                session.sync_odoo,
                file,
                model,
                known,
                field,
                d,
            )
            &&& after.missing_models.contains(name) <==> found.missing_models.contains(name)
                || field_misses(session.sync_odoo, model, known, field, name)
        }),
{
    let odoo = session.sync_odoo;
    let meant = meant_field(odoo, field.name);
    let checked = ref_checked(session, field, found);
    meant_is_before_at(odoo, field.name);
    assert(means(odoo, field.name, meant));
    ref_gives_what_is_found(session, field, found, d);
    if known.contains(meant) {
        if let (Some(text), Some(range)) = (field.text, field.text_range) {
            let module = odoo.sym(file).module;
            model_is_there(odoo, module, text);
            flagged(session, checked, DiagnosticCode::OLS05056, seq![text, model], range, d);
            flagged(
                session,
                checked.miss(text),
                DiagnosticCode::OLS05056,
                seq![text, model],
                range,
                d,
            );
            flagged(
                session,
                checked,
                DiagnosticCode::OLS05055,
                seq![text, odoo.sym(module->0).name@],
                range,
                d,
            );
        }
    } else {
        flagged(
            session,
            checked,
            DiagnosticCode::OLS05057,
            seq![field.name, model],
            field.range,
            d,
        );
    }
}

proof fn fields_give_what_is_found(
    session: SessionInfo,
    file: SymbolId,
    model: Seq<char>,
    known: Set<Seq<char>>,
    fields: Seq<FieldView>,
    found: FindingsView,
    d: DiagnosticView,
    name: Seq<char>,
)
    requires
        session.sync_odoo.wf(),
    ensures
        ({
            let odoo = session.sync_odoo;
            let after = fields_checked(session, file, model, known, fields, found);
            &&& after.diagnostics.contains(d) <==> found.diagnostics.contains(d)
                || !session.disabled().contains(d.code) && exists|i: int|
                0 <= i < fields.len() && field_gives(
                    odoo,
                    file,
                    model,
                    known,
                    #[trigger] fields[i],
                    d,
                )
            &&& after.missing_models.contains(name) <==> found.missing_models.contains(name)
                || exists|i: int|
                0 <= i < fields.len() && field_misses(odoo, model, known, #[trigger] fields[i], name)
            &&& after.dependencies == found.dependencies
            &&& after.model_dependencies == found.model_dependencies
        }),
    decreases fields.len(),
{
    if fields.len() > 0 {
        let odoo = session.sync_odoo;
        let front = fields.drop_last();
        let before = fields_checked(session, file, model, known, front, found);
        fields_give_what_is_found(session, file, model, known, front, found, d, name);
        field_gives_what_is_found(session, file, model, known, fields.last(), before, d, name);
        assert(fields[fields.len() - 1] == fields.last());
        assert forall|i: int| 0 <= i < front.len() implies front[i] == #[trigger] fields[i] by {}
        if exists|i: int|
            0 <= i < front.len() && field_gives(odoo, file, model, known, #[trigger] front[i], d) {
            let i = choose|i: int|
                0 <= i < front.len() && field_gives(odoo, file, model, known, #[trigger] front[i], d);
            assert(field_gives(odoo, file, model, known, fields[i], d));
        }
        if exists|i: int|
            0 <= i < front.len() && field_misses(odoo, model, known, #[trigger] front[i], name) {
            let i = choose|i: int|
                0 <= i < front.len() && field_misses(odoo, model, known, #[trigger] front[i], name);
            assert(field_misses(odoo, model, known, fields[i], name));
        }
    }
}

/// Whether a checked record is of a model that the module sees.
pub open spec fn is_of_seen(odoo: SyncOdoo, module: SymbolId, data: DataView) -> bool {
    is_checked(odoo, data) && is_seen(odoo, Some(module), data.kind->Record_model)
}

/// Whether a declaration makes the file depend on the model.
pub open spec fn data_uses(
    odoo: SyncOdoo,
    module: SymbolId,
    data: DataView,
    model: ModelId,
) -> bool {
    is_of_seen(odoo, module, data) && is_called(odoo, model, data.kind->Record_model)
}

/// Whether a declaration makes the file depend on the file at `other`: a class that defines the
/// record's model, and that the module sees, stands in it.
pub open spec fn data_needs(
    odoo: SyncOdoo,
    module: SymbolId,
    data: DataView,
    other: SymbolId,
) -> bool {
    is_of_seen(odoo, module, data) && exists|model: ModelId, id: SymbolId| #[trigger]
        is_called(odoo, model, data.kind->Record_model) && #[trigger] defines(
            odoo,
            model,
            Some(module),
            id,
        ) && odoo.symbols@[id as int]->0.file->0 == other
}

/// What may be asked of findings: a diagnostic, a missing model, a model and a file.
pub struct Probe {
    pub d: DiagnosticView,
    pub name: Seq<char>,
    pub model: ModelId,
    pub other: SymbolId,
}

/// Whether `b` is `a` and what a set of declarations adds, as far as the probe tells.
spec fn adds(
    session: SessionInfo,
    file: SymbolId,
    module: SymbolId,
    list: Seq<DataView>,
    a: FindingsView,
    b: FindingsView,
    probe: Probe,
) -> bool {
    let odoo = session.sync_odoo;
    &&& b.diagnostics.contains(probe.d) <==> a.diagnostics.contains(probe.d)
        || !session.disabled().contains(probe.d.code) && exists|i: int|
        0 <= i < list.len() && data_gives(odoo, file, module, #[trigger] list[i], probe.d)
    &&& b.missing_models.contains(probe.name) <==> a.missing_models.contains(probe.name) || exists|
        i: int,
    |
        0 <= i < list.len() && data_misses(odoo, module, #[trigger] list[i], probe.name)
    &&& b.model_dependencies.contains(probe.model) <==> a.model_dependencies.contains(probe.model)
        || exists|i: int|
        0 <= i < list.len() && data_uses(odoo, module, #[trigger] list[i], probe.model)
    &&& b.dependencies.contains(probe.other) <==> a.dependencies.contains(probe.other) || exists|
        i: int,
    |
        0 <= i < list.len() && data_needs(odoo, module, #[trigger] list[i], probe.other)
}

proof fn record_adds(
    session: SessionInfo,
    file: SymbolId,
    module: SymbolId,
    data: DataView,
    found: FindingsView,
    probe: Probe,
)
    requires
        session.sync_odoo.wf(),
    ensures
        adds(
            session,
            file,
            module,
            seq![data],
            found,
            data_checked(session, file, module, data, found),
            probe,
        ),
{
    let odoo = session.sync_odoo;
    let list = seq![data];
    let after = data_checked(session, file, module, data, found);
    let d = probe.d;
    assert(list.len() == 1 && list[0] == data);
    if is_checked(odoo, data) {
        let name = data.kind->Record_model;
        let range = data.kind->model_range;
        let fields = data.kind->fields;
        let model = odoo.model_at(name)->0;
        let mains = odoo.main_symbols(model, Some(module));
        model_is_there(odoo, Some(module), name);
        if !model_exists(odoo, name) {
            flagged(session, found.miss(name), DiagnosticCode::OLS05056, seq![name], range, d);
        } else if mains.len() == 0 {
            flagged(
                session,
                found.miss(name),
                DiagnosticCode::OLS05055,
                seq![name, odoo.sym(module).name@],
                range,
                d,
            );
        } else {
            fields_are_seen(odoo, module, name);
            let start = FindingsView {
                dependencies: found.dependencies + files_of(odoo, mains),
                model_dependencies: found.model_dependencies.push(model),
                log: crate::fields::field_visit(odoo, mains[0], Some(module), found.log).log,
                ..found
            };
            fields_give_what_is_found(
                session,
                file,
                name,
                field_names(odoo, mains[0], module),
                fields,
                start,
                d,
                probe.name,
            );
            pushed(found.model_dependencies, model, probe.model);
            assert(data_uses(odoo, module, data, probe.model) <==> probe.model == model);
            files_are_needed(odoo, module, name, probe.other);
            let files = files_of(odoo, mains);
            if found.dependencies.contains(probe.other) {
                let i = choose|i: int|
                    0 <= i < found.dependencies.len() && found.dependencies[i] == probe.other;
                assert(start.dependencies[i] == probe.other);
            }
            if files.contains(probe.other) {
                let i = choose|i: int| 0 <= i < files.len() && files[i] == probe.other;
                assert(start.dependencies[found.dependencies.len() + i] == probe.other);
            }
        }
        if !is_seen(odoo, Some(module), name) {
            assert(!data_uses(odoo, module, data, probe.model));
            assert(!data_needs(odoo, module, data, probe.other));
        }
    }
    assert(data_gives(odoo, file, module, data, d) <==> exists|i: int|
        0 <= i < list.len() && data_gives(odoo, file, module, #[trigger] list[i], d)) by {
        if data_gives(odoo, file, module, data, d) {
            assert(data_gives(odoo, file, module, list[0], d));
        }
    }
    assert(data_misses(odoo, module, data, probe.name) <==> exists|i: int|
        0 <= i < list.len() && data_misses(odoo, module, #[trigger] list[i], probe.name)) by {
        if data_misses(odoo, module, data, probe.name) {
            assert(data_misses(odoo, module, list[0], probe.name));
        }
    }
    assert(data_uses(odoo, module, data, probe.model) <==> exists|i: int|
        0 <= i < list.len() && data_uses(odoo, module, #[trigger] list[i], probe.model)) by {
        if data_uses(odoo, module, data, probe.model) {
            assert(data_uses(odoo, module, list[0], probe.model));
        }
    }
    assert(data_needs(odoo, module, data, probe.other) <==> exists|i: int|
        0 <= i < list.len() && data_needs(odoo, module, #[trigger] list[i], probe.other)) by {
        if data_needs(odoo, module, data, probe.other) {
            assert(data_needs(odoo, module, list[0], probe.other));
        }
    }
}

proof fn files_are_needed(odoo: SyncOdoo, module: SymbolId, name: Seq<char>, other: SymbolId)
    requires
        odoo.wf(),
        model_exists(odoo, name),
    ensures
        files_of(odoo, odoo.main_symbols(odoo.model_at(name)->0, Some(module))).contains(other)
            <==> exists|model: ModelId, id: SymbolId| #[trigger]
            is_called(odoo, model, name) && #[trigger] defines(odoo, model, Some(module), id)
                && odoo.symbols@[id as int]->0.file->0 == other,
{
    let model = odoo.model_at(name)->0;
    let mains = odoo.main_symbols(model, Some(module));
    let files = files_of(odoo, mains);
    model_is_there(odoo, Some(module), name);
    main_symbols_define(odoo, model, Some(module));
    if files.contains(other) {
        let i = choose|i: int| 0 <= i < files.len() && files[i] == other;
        assert(mains.contains(mains[i]));
        assert(is_called(odoo, model, name) && defines(odoo, model, Some(module), mains[i]));
    }
    if exists|m: ModelId, id: SymbolId| #[trigger]
        is_called(odoo, m, name) && #[trigger] defines(odoo, m, Some(module), id)
            && odoo.symbols@[id as int]->0.file->0 == other {
        let (m, id) = choose|m: ModelId, id: SymbolId| #[trigger]
            is_called(odoo, m, name) && #[trigger] defines(odoo, m, Some(module), id)
                && odoo.symbols@[id as int]->0.file->0 == other;
        assert(mains.contains(id));
        let i = choose|i: int| 0 <= i < mains.len() && mains[i] == id;
        assert(files[i] == other);
    }
}

proof fn adds_join(
    session: SessionInfo,
    file: SymbolId,
    module: SymbolId,
    front: Seq<DataView>,
    back: Seq<DataView>,
    a: FindingsView,
    b: FindingsView,
    c: FindingsView,
    probe: Probe,
)
    requires
        adds(session, file, module, front, a, b, probe),
        adds(session, file, module, back, b, c, probe),
    ensures
        adds(session, file, module, front + back, a, c, probe),
{
    let odoo = session.sync_odoo;
    let all = front + back;
    let n = front.len();
    assert forall|i: int| 0 <= i < n implies all[i] == #[trigger] front[i] by {}
    assert forall|i: int| 0 <= i < back.len() implies all[n + i] == #[trigger] back[i] by {}
    assert forall|i: int| 0 <= i < all.len() implies #[trigger] all[i] == if i < n {
        front[i]
    } else {
        back[i - n]
    } by {}
}

proof fn list_adds(
    session: SessionInfo,
    file: SymbolId,
    module: SymbolId,
    list: Seq<DataView>,
    found: FindingsView,
    probe: Probe,
)
    requires
        session.sync_odoo.wf(),
    ensures
        adds(
            session,
            file,
            module,
            list,
            found,
            list_checked(session, file, module, list, found),
            probe,
        ),
    decreases list.len(),
{
    if list.len() > 0 {
        let front = list.drop_last();
        let before = list_checked(session, file, module, front, found);
        list_adds(session, file, module, front, found, probe);
        record_adds(session, file, module, list.last(), before, probe);
        adds_join(
            session,
            file,
            module,
            front,
            seq![list.last()],
            found,
            before,
            list_checked(session, file, module, list, found),
            probe,
        );
        assert(front + seq![list.last()] =~= list);
    }
}

/// All that the file declares under the names, in order.
spec fn declared_under(odoo: SyncOdoo, file: SymbolId, names: Seq<Seq<char>>) -> Seq<DataView>
    decreases names.len(),
{
    if names.len() == 0 {
        Seq::empty()
    } else {
        declared_under(odoo, file, names.drop_last()) + odoo.declared(file, names.last())
    }
}

proof fn names_add(
    session: SessionInfo,
    file: SymbolId,
    module: SymbolId,
    names: Seq<Seq<char>>,
    found: FindingsView,
    probe: Probe,
)
    requires
        session.sync_odoo.wf(),
    ensures
        adds(
            session,
            file,
            module,
            declared_under(session.sync_odoo, file, names),
            found,
            names_checked(session, file, module, names, found),
            probe,
        ),
    decreases names.len(),
{
    if names.len() > 0 {
        let odoo = session.sync_odoo;
        let front = names.drop_last();
        let before = names_checked(session, file, module, front, found);
        names_add(session, file, module, front, found, probe);
        list_adds(session, file, module, odoo.declared(file, names.last()), before, probe);
        adds_join(
            session,
            file,
            module,
            declared_under(odoo, file, front),
            odoo.declared(file, names.last()),
            found,
            before,
            names_checked(session, file, module, names, found),
            probe,
        );
    }
}

/// Whether the file at `file` holds the declaration.
pub open spec fn is_declared(odoo: SyncOdoo, file: SymbolId, data: DataView) -> bool {
    let entries = odoo.symbols@[file as int]->0.data->XmlFile_0.xml_ids.entries@;
    exists|i: int, j: int|
        0 <= i < entries.len() && 0 <= j < entries[i].value@.len() && #[trigger] entries[i].value@[j]@
            == data
}

proof fn under_names(odoo: SyncOdoo, file: SymbolId, names: Seq<Seq<char>>, data: DataView)
    ensures
        declared_under(odoo, file, names).contains(data) <==> exists|i: int|
            0 <= i < names.len() && odoo.declared(file, #[trigger] names[i]).contains(data),
    decreases names.len(),
{
    if names.len() > 0 {
        let front = names.drop_last();
        let a = declared_under(odoo, file, front);
        let b = odoo.declared(file, names.last());
        under_names(odoo, file, front, data);
        assert forall|i: int| 0 <= i < front.len() implies front[i] == #[trigger] names[i] by {}
        assert(names[names.len() - 1] == names.last());
        if a.contains(data) {
            let i = choose|i: int| 0 <= i < a.len() && a[i] == data;
            assert((a + b)[i] == data);
            let k = choose|k: int|
                0 <= k < front.len() && odoo.declared(file, #[trigger] front[k]).contains(data);
            assert(odoo.declared(file, names[k]).contains(data));
        }
        if b.contains(data) {
            let i = choose|i: int| 0 <= i < b.len() && b[i] == data;
            assert((a + b)[a.len() + i] == data);
        }
    }
}

proof fn all_is_declared(odoo: SyncOdoo, file: SymbolId, data: DataView)
    requires
        odoo.wf(),
        odoo.is_xml_file(file),
    ensures
        declared_under(odoo, file, odoo.declared_names(file)).contains(data) <==> is_declared(
            odoo,
            file,
            data,
        ),
{
    let names = odoo.declared_names(file);
    let entries = odoo.sym(file).data->XmlFile_0.xml_ids.entries@;
    checked_is_declared(odoo, file);
    under_names(odoo, file, names, data);
    assert forall|i: int| 0 <= i < entries.len() implies odoo.declared(file, #[trigger] names[i])
        == data_views(entries[i].value@) by {
        assert(entries[i].name@ == names[i]);
    }
    if is_declared(odoo, file, data) {
        let (i, j) = choose|i: int, j: int|
            0 <= i < entries.len() && 0 <= j < entries[i].value@.len() && #[trigger] entries[i].value@[j]@
                == data;
        assert(data_views(entries[i].value@)[j] == data);
        assert(odoo.declared(file, names[i]).contains(data));
    }
    if exists|i: int| 0 <= i < names.len() && odoo.declared(file, #[trigger] names[i]).contains(data) {
        let i = choose|i: int|
            0 <= i < names.len() && odoo.declared(file, #[trigger] names[i]).contains(data);
        let views = data_views(entries[i].value@);
        let j = choose|j: int| 0 <= j < views.len() && views[j] == data;
        assert(entries[i].value@[j]@ == data);
    }
}

/// Validation of a file finds exactly what its declarations give rise to. A diagnostic is among
/// those of the file if and only if it is not switched off and one of the declared records gives
/// rise to it; a model is missing if and only if a record leaves it missing; and the file
/// depends on exactly the models of its records that its module sees, and on the files of the
/// classes that define them.
pub proof fn findings_are_exact(
    session: SessionInfo,
    file: SymbolId,
    probe: Probe,
)
    requires
        session.sync_odoo.wf(),
        session.sync_odoo.is_xml_file(file),
    ensures
        ({
            let odoo = session.sync_odoo;
            let found = file_checked(session, file);
            let module = odoo.symbols@[file as int]->0.module->0;
            &&& found.diagnostics.contains(probe.d) <==> !session.disabled_codes@.contains(
                probe.d.code,
            ) && exists|data: DataView| #[trigger]
                is_declared(odoo, file, data) && data_gives(odoo, file, module, data, probe.d)
            &&& found.missing_models.contains(probe.name) <==> exists|data: DataView| #[trigger]
                is_declared(odoo, file, data) && data_misses(odoo, module, data, probe.name)
            &&& found.model_dependencies.contains(probe.model) <==> exists|data: DataView|
             #[trigger]
                is_declared(odoo, file, data) && data_uses(odoo, module, data, probe.model)
            &&& found.dependencies.contains(probe.other) <==> exists|data: DataView| #[trigger]
                is_declared(odoo, file, data) && data_needs(odoo, module, data, probe.other)
        }),
{
    let odoo = session.sync_odoo;
    let module = odoo.symbols@[file as int]->0.module->0;
    let names = odoo.declared_names(file);
    let all = declared_under(odoo, file, names);
    names_add(session, file, module, names, nothing_found(session), probe);
    assert forall|data: DataView| #[trigger] is_declared(odoo, file, data) <==> all.contains(
        data,
    ) by {
        all_is_declared(odoo, file, data);
    }
    assert forall|i: int| 0 <= i < all.len() implies is_declared(odoo, file, #[trigger] all[i]) by {
        assert(all.contains(all[i]));
    }
    assert(session.disabled().contains(probe.d.code) == session.disabled_codes@.contains(
        probe.d.code,
    ));
}

/// A field that the model of its record does not have is reported among the diagnostics of the
/// file, whatever the field holds: a text, a reference, an expression, a search or nothing. The
/// exceptions are a field that is written as a translation, and a diagnostic that is switched
/// off.
pub proof fn unknown_field_is_reported(
    session: SessionInfo,
    file: SymbolId,
    data: DataView,
    i: int,
)
    requires
        session.sync_odoo.wf(),
        session.sync_odoo.is_xml_file(file),
        is_declared(session.sync_odoo, file, data),
        is_of_seen(
            session.sync_odoo,
            session.sync_odoo.symbols@[file as int]->0.module->0,
            data,
        ),
        0 <= i < data.kind->fields.len(),
        !is_translated(session.sync_odoo, data.kind->fields[i].name),
        !fields_seen(
            session.sync_odoo,
            session.sync_odoo.symbols@[file as int]->0.module->0,
            data.kind->Record_model,
        ).contains(data.kind->fields[i].name),
        !session.disabled_codes@.contains(DiagnosticCode::OLS05057),
    ensures
        ({
            let field = data.kind->fields[i];
            exists|d: DiagnosticView| #[trigger]
                file_checked(session, file).diagnostics.contains(d) && d.code
                    == DiagnosticCode::OLS05057 && d.args == seq![
                    field.name,
                    data.kind->Record_model,
                ] && points_at(d, field.range)
        }),
{
    let odoo = session.sync_odoo;
    let module = odoo.symbols@[file as int]->0.module->0;
    let model = data.kind->Record_model;
    let field = data.kind->fields[i];
    let d = DiagnosticView {
        code: DiagnosticCode::OLS05057,
        args: seq![field.name, model],
        range: Range {
            start: Position {
                line: #[verifier::truncate] (field.range.start as u32),
                character: 0,
            },
            end: Position { line: #[verifier::truncate] (field.range.end as u32), character: 0 },
        },
    };
    meant_is_before_at(odoo, field.name);
    model_is_there(odoo, Some(module), model);
    assert(field_gives(odoo, file, model, fields_seen(odoo, module, model), field, d));
    findings_are_exact(session, file, Probe { d, name: arbitrary(), model: 0, other: 0 });
    assert(data_gives(odoo, file, module, data, d));
}

/// Only a field that its model does not have is reported as unknown.
pub proof fn known_field_is_not_reported(
    session: SessionInfo,
    file: SymbolId,
    name: Seq<char>,
    model: Seq<char>,
    d: DiagnosticView,
)
    requires
        session.sync_odoo.wf(),
        session.sync_odoo.is_xml_file(file),
        fields_seen(
            session.sync_odoo,
            session.sync_odoo.symbols@[file as int]->0.module->0,
            model,
        ).contains(name) || is_translated(session.sync_odoo, name),
        d.code == DiagnosticCode::OLS05057,
        d.args == seq![name, model],
    ensures
        !file_checked(session, file).diagnostics.contains(d),
{
    let odoo = session.sync_odoo;
    let module = odoo.symbols@[file as int]->0.module->0;
    findings_are_exact(session, file, Probe { d, name: arbitrary(), model: 0, other: 0 });
    if file_checked(session, file).diagnostics.contains(d) {
        let data = choose|data: DataView| #[trigger]
            is_declared(odoo, file, data) && data_gives(odoo, file, module, data, d);
        let fields = data.kind->fields;
        let known = fields_seen(odoo, module, data.kind->Record_model);
        let i = choose|i: int|
            0 <= i < fields.len() && field_gives(
                odoo,
                file,
                data.kind->Record_model,
                known,
                #[trigger] fields[i],
                d,
            );
        assert(d.args[0] == name && d.args[1] == model);
        assert(fields[i].name == name);
        meant_is_before_at(odoo, name);
        assert(means(odoo, name, name));
    }
}

} // verus!
