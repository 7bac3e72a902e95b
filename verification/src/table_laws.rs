//! The tables stay well-formed whatever is loaded, validated or changed.
use vstd::prelude::*;

use crate::constants::{ModelId, SymbolId};
use crate::handles::held;
use crate::model_changes::{added, removed, told};
use crate::odoo::{members_are_exact, SessionInfo, SyncOdoo};
use crate::xml_arch_builder::only_loaded;
use crate::xml_data::{DataKind, DataView};
use crate::xml_ids::{names_stay_apart, same_names};
use crate::xml_validation::{data_in_files, model_exists, validated, FindingsView};

verus! {

/// Whether every class of a model stands in a Python file that is there.
pub open spec fn classes_in_files(odoo: SyncOdoo) -> bool {
    forall|model: ModelId, id: SymbolId|
        model < odoo.models.len() && #[trigger] odoo.classes(model).contains(id) ==> odoo.in_file(
            id,
        )
}

impl SyncOdoo {
    /// Whether the tables are fit for every step of a build: handles tell positions, modules are
    /// modules, maps hold no name twice, the classes of models say so, and stand in files.
    pub open spec fn is_sound(self) -> bool {
        self.wf() && self.models_wf() && classes_in_files(self)
    }

    /// Whether `other` has the same symbols in the same places, with the same handles, modules and
    /// files, and the same classes.
    pub open spec fn same_places(self, other: SyncOdoo) -> bool {
        &&& self.symbols@.len() == other.symbols@.len()
        &&& self.modules == other.modules
        &&& self.files.distinct() ==> other.files.distinct()
        &&& same_names(self.models@, other.models@)
        &&& forall|i: int|
            0 <= i < self.symbols@.len() ==> {
                &&& (#[trigger] self.symbols@[i]) is Some == other.symbols@[i] is Some
                &&& self.symbols@[i] is Some ==> {
                    let a = self.symbols@[i]->0;
                    let b = other.symbols@[i]->0;
                    &&& a.handle == b.handle
                    &&& a.module == b.module
                    &&& a.file == b.file
                    &&& a.data is Module == b.data is Module
                    &&& a.data is File == b.data is File
                    &&& a.data is Class ==> a.data == b.data
                    &&& a.data.keyed_once() ==> b.data.keyed_once()
                }
            }
    }
}

proof fn places_keep_wf(x: SyncOdoo, y: SyncOdoo)
    requires
        x.wf(),
        x.same_places(y),
    ensures
        y.wf(),
        forall|id: SymbolId| #[trigger] x.live(id) == y.live(id),
        forall|id: SymbolId| #[trigger] x.is_model_class(id) ==> y.is_model_class(id),
{
    names_stay_apart(x.models@, y.models@);
    assert(x.symbols@.len() == x.symbols.len());
    assert(y.symbols@.len() == y.symbols.len());
    assert forall|id: SymbolId| #[trigger] x.live(id) == y.live(id) by {
        if id < x.symbols.len() {
            assert(x.symbols@[id as int] is Some == y.symbols@[id as int] is Some);
        }
    }
    assert forall|id: SymbolId| #[trigger] x.is_module(id) implies y.is_module(id) by {
        assert(x.symbols@[id as int] is Some == y.symbols@[id as int] is Some);
    }
    assert forall|id: SymbolId| #[trigger] x.is_model_class(id) implies y.is_model_class(id) by {
        assert(x.symbols@[id as int] is Some == y.symbols@[id as int] is Some);
    }
    assert forall|i: int| 0 <= i < y.symbols@.len() && (
    #[trigger] y.symbols@[i]) is Some implies y.symbols@[i]->0.handle.id() == i by {
        assert(x.symbols@[i] is Some == y.symbols@[i] is Some);
    }
    assert forall|i: int| 0 <= i < y.modules.entries.len() implies y.is_module(
        (#[trigger] y.modules.entries@[i]).value,
    ) by {
        assert(x.is_module(x.modules.entries@[i].value));
    }
    assert forall|id: SymbolId| #[trigger] y.live(id) implies y.sym(id).data.keyed_once() by {
        assert(x.live(id));
        assert(x.symbols@[id as int] is Some);
    }
    assert forall|id: SymbolId| #[trigger] y.live(id) && y.sym(id).module is Some implies y.is_module(
        y.sym(id).module->0,
    ) by {
        assert(x.live(id));
        assert(x.symbols@[id as int] is Some);
        assert(x.is_module(x.sym(id).module->0));
    }
}

/// The tables stay sound where every class of a model was one before, or is named.
proof fn places_keep_sound(x: SyncOdoo, y: SyncOdoo, extra: Option<SymbolId>)
    requires
        x.is_sound(),
        x.same_places(y),
        extra is Some ==> x.is_model_class(extra->0) && x.in_file(extra->0),
        forall|model: ModelId, id: SymbolId|
            model < y.models.len() && #[trigger] y.classes(model).contains(id) ==> x.classes(
                model,
            ).contains(id) || extra == Some(id),
    ensures
        y.is_sound(),
{
    places_keep_wf(x, y);
    assert forall|model: ModelId, id: SymbolId|
        model < y.models.len() && #[trigger] y.classes(model).contains(id) implies y.is_model_class(
        id,
    ) && y.in_file(id) by {
        assert(x.models@.len() == x.models.len());
        assert(y.models@.len() == y.models.len());
        if extra != Some(id) {
            assert(x.classes(model).contains(id));
        }
        assert(x.is_model_class(id) && x.in_file(id));
        let file = x.sym(id).file->0;
        assert(x.symbols@[id as int] is Some);
        assert(x.live(file));
        assert(x.symbols@[file as int] is Some);
    }
}

/// Whether the classes of a model are those that its handles name.
proof fn same_classes(x: SyncOdoo, y: SyncOdoo, model: ModelId)
    requires
        x.same_places(y),
        model < x.models.len(),
        held(y.models@[model as int].symbols) == held(x.models@[model as int].symbols),
    ensures
        forall|id: SymbolId| #[trigger]
            y.classes(model).contains(id) <==> x.classes(model).contains(id),
{
    let set = held(x.models@[model as int].symbols);
    assert(x.symbols@.len() == x.symbols.len());
    assert(y.symbols@.len() == y.symbols.len());
    members_are_exact(x.symbols@, set);
    members_are_exact(y.symbols@, set);
    assert forall|id: SymbolId| #[trigger] y.classes(model).contains(id) <==> x.classes(
        model,
    ).contains(id) by {
        if id < x.symbols@.len() {
            assert(x.symbols@[id as int] is Some == y.symbols@[id as int] is Some);
        }
    }
}

/// Loading a file keeps the tables sound.
pub proof fn loading_keeps_tables(a: SessionInfo, b: SessionInfo, file: SymbolId)
    requires
        a.sync_odoo.is_sound(),
        only_loaded(a, b, file),
    ensures
        b.sync_odoo.is_sound(),
{
    let x = a.sync_odoo;
    let y = b.sync_odoo;
    assert(x.same_places(y));
    assert forall|model: ModelId, id: SymbolId|
        model < y.models.len() && #[trigger] y.classes(model).contains(id) implies x.classes(
        model,
    ).contains(id) by {
        same_classes(x, y, model);
    }
    places_keep_sound(x, y, None);
}

/// Validating a file keeps the tables sound.
pub proof fn validation_keeps_tables(
    a: SessionInfo,
    b: SessionInfo,
    file: SymbolId,
    found: FindingsView,
)
    requires
        a.sync_odoo.is_sound(),
        validated(a, b, file, found),
    ensures
        b.sync_odoo.is_sound(),
{
    let x = a.sync_odoo;
    let y = b.sync_odoo;
    assert forall|i: int| 0 <= i < x.symbols@.len() implies {
        &&& (#[trigger] x.symbols@[i]) is Some == y.symbols@[i] is Some
        &&& x.symbols@[i] is Some ==> {
            let a = x.symbols@[i]->0;
            let b = y.symbols@[i]->0;
            &&& a.handle == b.handle
            &&& a.module == b.module
            &&& a.file == b.file
            &&& a.data is Module == b.data is Module
            &&& a.data is File == b.data is File
            &&& a.data is Class ==> a.data == b.data
            &&& a.data.keyed_once() ==> b.data.keyed_once()
        }
    } by {
        assert(y.symbols@[i] is Some == x.symbols@[i] is Some);
    }
    assert(x.same_places(y));
    assert forall|model: ModelId, id: SymbolId|
        model < y.models.len() && #[trigger] y.classes(model).contains(id) implies x.classes(
        model,
    ).contains(id) by {
        assert(y.models@[model as int].symbols == x.models@[model as int].symbols);
        same_classes(x, y, model);
    }
    places_keep_sound(x, y, None);
}

proof fn telling_keeps_places(
    a: SessionInfo,
    b: SessionInfo,
    model: ModelId,
    module_change: Option<SymbolId>,
)
    requires
        model < a.sync_odoo.models.len(),
        told(a, b, model, module_change),
        same_names(a.sync_odoo.models@, b.sync_odoo.models@),
    ensures
        a.sync_odoo.same_places(b.sync_odoo),
{
    let x = a.sync_odoo;
    let y = b.sync_odoo;
    let affected = x.affected(model, module_change);
    let test = |id: SymbolId| x.affected_by(id, module_change);
    assert(x.symbols@.len() == x.symbols.len());
    members_are_exact(x.symbols@, held(x.models@[model as int].dependents));
    assert forall|i: int| 0 <= i < x.symbols@.len() implies {
        &&& (#[trigger] x.symbols@[i]) is Some == y.symbols@[i] is Some
        &&& x.symbols@[i] is Some ==> {
            let a = x.symbols@[i]->0;
            let b = y.symbols@[i]->0;
            &&& a.handle == b.handle
            &&& a.module == b.module
            &&& a.file == b.file
            &&& a.data is Module == b.data is Module
            &&& a.data is File == b.data is File
            &&& a.data is Class ==> a.data == b.data
            &&& a.data.keyed_once() ==> b.data.keyed_once()
        }
    } by {
        if affected.contains(i as usize) {
            x.dependents(model).lemma_filter_contains_rev(test, i as usize);
        }
    }
}

/// Adding a class to a model keeps the tables sound, if the class says that it is of a model and
/// stands in a file.
pub proof fn adding_keeps_tables(a: SessionInfo, b: SessionInfo, model: ModelId, symbol: SymbolId)
    requires
        a.sync_odoo.is_sound(),
        model < a.sync_odoo.models.len(),
        a.sync_odoo.is_model_class(symbol),
        a.sync_odoo.in_file(symbol),
        added(a, b, model, symbol),
    ensures
        b.sync_odoo.is_sound(),
{
    let x = a.sync_odoo;
    let y = b.sync_odoo;
    let handle = x.sym(symbol).handle;
    if !held(x.models@[model as int].symbols).contains(handle) {
        telling_keeps_places(a, b, model, None);
        assert forall|m: ModelId, id: SymbolId|
            m < y.models.len() && #[trigger] y.classes(m).contains(id) implies x.classes(
            m,
        ).contains(id) || Some(symbol) == Some(id) by {
            if m != model {
                assert(y.models@[m as int] == x.models@[m as int]);
                same_classes(x, y, m);
            } else {
                let old_set = held(x.models@[m as int].symbols);
                assert(x.symbols@.len() == x.symbols.len());
                assert(y.symbols@.len() == y.symbols.len());
                members_are_exact(x.symbols@, old_set);
                members_are_exact(y.symbols@, old_set.insert(handle));
                assert(x.symbols@[id as int] is Some);
                assert(x.symbols@[id as int]->0.handle.id() == id);
                assert(x.symbols@[symbol as int]->0.handle.id() == symbol);
            }
        }
        places_keep_sound(x, y, Some(symbol));
    }
}

/// Taking a class out of a model keeps the tables sound.
pub proof fn removing_keeps_tables(
    a: SessionInfo,
    b: SessionInfo,
    model: ModelId,
    symbol: SymbolId,
    from_module: Option<SymbolId>,
)
    requires
        a.sync_odoo.is_sound(),
        model < a.sync_odoo.models.len(),
        removed(a, b, model, symbol, from_module),
    ensures
        b.sync_odoo.is_sound(),
{
    let x = a.sync_odoo;
    let y = b.sync_odoo;
    let handle = x.sym(symbol).handle;
    telling_keeps_places(a, b, model, from_module);
    assert forall|m: ModelId, id: SymbolId|
        m < y.models.len() && #[trigger] y.classes(m).contains(id) implies x.classes(
        m,
    ).contains(id) by {
        if m != model {
            assert(y.models@[m as int] == x.models@[m as int]);
            same_classes(x, y, m);
        } else {
            let old_set = held(x.models@[m as int].symbols);
            assert(x.symbols@.len() == x.symbols.len());
            assert(y.symbols@.len() == y.symbols.len());
            members_are_exact(x.symbols@, old_set);
            members_are_exact(y.symbols@, old_set.remove(handle));
            assert(x.symbols@[id as int] is Some);
        }
    }
    places_keep_sound(x, y, None);
}

/// In sound tables every declaration can be checked for every module.
pub proof fn sound_tables_can_be_checked(odoo: SyncOdoo, module: SymbolId, data: DataView)
    requires
        odoo.is_sound(),
    ensures
        data_in_files(odoo, module, data),
{
    if let DataKind::Record { model: name, .. } = data.kind {
        if model_exists(odoo, name) {
            let model = odoo.model_at(name)->0;
            let test = |id: SymbolId| odoo.main_and_visible(Some(module), id);
            let mains = odoo.main_symbols(model, Some(module));
            odoo.model_at_is_first(name);
            assert forall|k: int| 0 <= k < mains.len() implies odoo.in_file(
                #[trigger] mains[k],
            ) by {
                assert(mains.contains(mains[k]));
                odoo.classes(model).lemma_filter_contains_rev(test, mains[k]);
                assert(odoo.classes(model).contains(mains[k]));
            }
        }
    }
}

} // verus!
