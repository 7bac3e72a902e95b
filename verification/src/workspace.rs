//! How the symbol and model tables are filled.
use vstd::prelude::*;

use crate::constants::{BuildStatus, EntryPointType, ModelId, SymbolId};
use crate::diagnostics::DiagnosticCode;
use crate::handles::{held, stored, Handle, HandleMap, HandleSet};
use crate::model::{Model, ModelData};
use crate::model_changes::same_but_symbols;
use crate::names::NameMap;
use crate::odoo::{ascending_is_unique, members, members_are_exact, EntryPoint, SessionInfo, SyncOdoo, Version};
use crate::symbols::{ClassSymbol, FileSymbol, ModuleSymbol, Symbol, SymbolData, XmlFileSymbol};
use crate::xml_ids::names_stay_apart;

verus! {

impl ModuleSymbol {
    /// A module in which no XML ID is declared yet.
    pub fn new(dir_name: String, all_depends: Vec<String>) -> (r: ModuleSymbol)
        ensures
            r.dir_name == dir_name,
            r.all_depends == all_depends,
            r.xml_id_locations.entries@.len() == 0,
            SymbolData::Module(r).keyed_once(),
    {
        ModuleSymbol { dir_name, all_depends, xml_id_locations: NameMap::new() }
    }
}

impl XmlFileSymbol {
    /// An XML file that is not built yet.
    pub fn new() -> (r: XmlFileSymbol)
        ensures
            r.arch_status == BuildStatus::PENDING,
            r.validation_status == BuildStatus::PENDING,
            r.xml_ids.entries@.len() == 0,
            held(r.dependencies) == Set::<Handle>::empty(),
            held(r.model_dependencies) == Set::<Handle>::empty(),
            r.not_found_models.entries@.len() == 0,
            SymbolData::XmlFile(r).keyed_once(),
    {
        XmlFileSymbol {
            arch_status: BuildStatus::PENDING,
            validation_status: BuildStatus::PENDING,
            xml_ids: NameMap::new(),
            dependencies: HandleSet::new(),
            model_dependencies: HandleSet::new(),
            not_found_models: NameMap::new(),
        }
    }
}

impl FileSymbol {
    /// A Python file that nothing depends on yet.
    pub fn new() -> (r: FileSymbol)
        ensures
            held(r.dependents) == Set::<Handle>::empty(),
            stored(r.decl_ext_symbols).dom() == Set::<Handle>::empty(),
    {
        FileSymbol { dependents: HandleSet::new(), decl_ext_symbols: HandleMap::new() }
    }
}

impl ClassSymbol {
    /// A class without fields.
    pub fn new(model: Option<ModelData>) -> (r: ClassSymbol)
        ensures
            r.model == model,
            r.fields.entries@.len() == 0,
            stored(r.decl_ext_symbols).dom() == Set::<Handle>::empty(),
    {
        ClassSymbol { model, fields: NameMap::new(), decl_ext_symbols: HandleMap::new() }
    }
}

impl EntryPoint {
    /// An entry point from which every model was found so far.
    pub fn new(typ: EntryPointType) -> (r: EntryPoint)
        ensures
            r.typ == typ,
            held(r.not_found_symbols_for_models) == Set::<Handle>::empty(),
    {
        EntryPoint { typ, not_found_symbols_for_models: HandleSet::new() }
    }
}

impl SessionInfo {
    /// A session in which nothing has happened yet.
    pub fn new(sync_odoo: SyncOdoo, disabled_codes: Vec<DiagnosticCode>) -> (r: SessionInfo)
        ensures
            r.sync_odoo == sync_odoo,
            r.disabled_codes == disabled_codes,
            r.messages@.len() == 0,
            r.requests@.len() == 0,
    {
        SessionInfo { sync_odoo, disabled_codes, messages: Vec::new(), requests: Vec::new() }
    }
}

impl SyncOdoo {
    /// Tables without symbols, modules, models and files.
    pub fn new(full_version: Version) -> (r: SyncOdoo)
        ensures
            r.full_version == full_version,
            r.symbols@.len() == 0,
            r.modules.entries@.len() == 0,
            r.models@.len() == 0,
            r.files.entries@.len() == 0,
            r.main_entry.typ == EntryPointType::MAIN,
            held(r.main_entry.not_found_symbols_for_models) == Set::<Handle>::empty(),
            held(r.rebuild_validation) == Set::<Handle>::empty(),
            r.wf(),
            r.models_wf(),
    {
        SyncOdoo {
            full_version,
            symbols: Vec::new(),
            modules: NameMap::new(),
            models: Vec::new(),
            main_entry: EntryPoint::new(EntryPointType::MAIN),
            rebuild_validation: HandleSet::new(),
            files: NameMap::new(),
        }
    }

    /// Adds a symbol that stands in no set of its kind yet, at the end of the table. It belongs
    /// to no module, file or function.
    pub fn add_symbol(&mut self, name: String, data: SymbolData) -> (r: SymbolId)
        requires
            old(self).wf(),
            data.keyed_once(),
            old(self).symbols@.len() < usize::MAX,
        ensures
            r == old(self).symbols@.len(),
            final(self).symbols@.len() == r + 1,
            final(self).symbols@.take(r as int) == old(self).symbols@,
            final(self).live(r),
            final(self).sym(r).name == name,
            final(self).sym(r).data == data,
            final(self).sym(r).module is None,
            final(self).sym(r).file is None,
            final(self).sym(r).outer_function is None,
            final(self).sym(r).entry is None,
            final(self).sym(r).paths@.len() == 0,
            final(self).models@.len() == old(self).models@.len(),
            forall|m: int|
                0 <= m < old(self).models@.len() ==> same_but_symbols(
                    old(self).models@[m],
                    #[trigger] final(self).models@[m],
                ),
            forall|model: ModelId|
                model < old(self).models@.len() ==> #[trigger] final(self).classes(model) == old(
                    self,
                ).classes(model),
            final(self).full_version == old(self).full_version,
            final(self).modules == old(self).modules,
            final(self).main_entry == old(self).main_entry,
            final(self).rebuild_validation == old(self).rebuild_validation,
            final(self).files == old(self).files,
            final(self).wf(),
            old(self).models_wf() ==> final(self).models_wf(),
    {
        let ghost before = *self;
        let id: SymbolId = self.symbols.len();
        let handle = Handle::new(id);
        let mut i: usize = 0;
        while i < self.models.len()
            invariant
                i <= self.models@.len(),
                self.models@.len() == before.models@.len(),
                forall|m: int|
                    0 <= m < i ==> held((#[trigger] self.models@[m]).symbols) == held(
                        before.models@[m].symbols,
                    ).remove(handle),
                forall|m: int|
                    0 <= m < self.models@.len() ==> same_but_symbols(
                        before.models@[m],
                        #[trigger] self.models@[m],
                    ),
                forall|m: int| i <= m < self.models@.len() ==> self.models@[m] == before.models@[m],
                self.symbols == before.symbols,
                self.full_version == before.full_version,
                self.modules == before.modules,
                self.main_entry == before.main_entry,
                self.rebuild_validation == before.rebuild_validation,
                self.files == before.files,
            decreases self.models@.len() - i,
        {
            self.models[i].symbols.remove(&handle);
            i = i + 1;
        }
        self.symbols.push(
            Some(
                Symbol {
                    handle,
                    name,
                    module: None,
                    file: None,
                    outer_function: None,
                    entry: None,
                    paths: Vec::new(),
                    data,
                },
            ),
        );
        proof {
            names_stay_apart(before.models@, self.models@);
            assert(self.symbols@.drop_last() =~= before.symbols@);
            assert(self.symbols@.take(id as int) =~= before.symbols@);
            assert forall|model: ModelId| model < before.models@.len() implies #[trigger] self.classes(
                model,
            ) == before.classes(model) by {
                let set = held(before.models@[model as int].symbols);
                assert(held(self.models@[model as int].symbols) == set.remove(handle));
                same_members(before.symbols@, set, handle);
            }
            assert forall|other: SymbolId| #[trigger] before.live(other) implies self.live(other)
                && self.sym(other) == before.sym(other) by {
                assert(self.symbols@[other as int] == before.symbols@[other as int]);
            }
            assert forall|k: int| 0 <= k < self.modules.entries.len() implies self.is_module(
                (#[trigger] self.modules.entries@[k]).value,
            ) by {
                assert(before.is_module(before.modules.entries@[k].value));
            }
            assert forall|other: SymbolId| #[trigger]
                self.live(other) && self.sym(other).module is Some implies self.is_module(
                self.sym(other).module->0,
            ) by {
                assert(other != id);
                assert(self.symbols@[other as int] == before.symbols@[other as int]);
                assert(before.live(other));
                assert(before.is_module(before.sym(other).module->0));
            }
            assert forall|other: SymbolId| #[trigger] self.live(other) implies self.sym(
                other,
            ).data.keyed_once() by {
                if other != id {
                    assert(self.symbols@[other as int] == before.symbols@[other as int]);
                    assert(before.live(other));
                }
            }
            if before.models_wf() {
                assert forall|model: ModelId, other: SymbolId|
                    model < self.models.len() && #[trigger] self.classes(model).contains(
                        other,
                    ) implies self.is_model_class(other) by {
                    assert(before.classes(model).contains(other));
                    assert(before.is_model_class(other));
                    assert(before.live(other));
                }
            }
        }
        id
    }

    /// Puts the symbol at `id` into a module, a file and a function.
    pub fn place_symbol(
        &mut self,
        id: SymbolId,
        module: Option<SymbolId>,
        file: Option<SymbolId>,
        outer_function: Option<SymbolId>,
    )
        requires
            old(self).wf(),
            old(self).live(id),
            module is Some ==> old(self).is_module(module->0),
        ensures
            final(self).symbols@ == old(self).symbols@.update(
                id as int,
                Some(Symbol { module, file, outer_function, ..old(self).sym(id) }),
            ),
            final(self).models == old(self).models,
            final(self).full_version == old(self).full_version,
            final(self).modules == old(self).modules,
            final(self).main_entry == old(self).main_entry,
            final(self).rebuild_validation == old(self).rebuild_validation,
            final(self).files == old(self).files,
            final(self).wf(),
            old(self).models_wf() ==> final(self).models_wf(),
    {
        let ghost before = *self;
        if let Some(symbol) = &mut self.symbols[id] {
            symbol.module = module;
            symbol.file = file;
            symbol.outer_function = outer_function;
        }
        proof {
            still_wf_after_update(before, *self, id);
        }
    }

    /// Drops the symbol at `id`, which leaves its position empty. Sets forget it by themselves.
    pub fn drop_symbol(&mut self, id: SymbolId)
        requires
            old(self).wf(),
            old(self).live(id),
            !old(self).is_module(id),
        ensures
            final(self).symbols@ == old(self).symbols@.update(id as int, None),
            final(self).models == old(self).models,
            final(self).full_version == old(self).full_version,
            final(self).modules == old(self).modules,
            final(self).main_entry == old(self).main_entry,
            final(self).rebuild_validation == old(self).rebuild_validation,
            final(self).files == old(self).files,
            final(self).wf(),
            old(self).models_wf() ==> final(self).models_wf(),
    {
        let ghost before = *self;
        self.symbols.set(id, None);
        proof {
            still_wf_after_update(before, *self, id);
        }
    }

    /// Makes the module at `id` known by its directory name, in place of one that was.
    pub fn add_module(&mut self, id: SymbolId)
        requires
            old(self).wf(),
            old(self).is_module(id),
        ensures
            NameMap::replaced(old(self).modules, final(self).modules, old(self).dir_of(id), id),
            final(self).symbols == old(self).symbols,
            final(self).models == old(self).models,
            final(self).full_version == old(self).full_version,
            final(self).main_entry == old(self).main_entry,
            final(self).rebuild_validation == old(self).rebuild_validation,
            final(self).files == old(self).files,
            final(self).wf(),
            old(self).models_wf() ==> final(self).models_wf(),
    {
        let ghost before = *self;
        let name: String = self.dir_name(id).to_owned();
        let place = self.modules.entry(name.as_str(), id);
        *place = id;
        proof {
            assert forall|k: int| 0 <= k < self.modules.entries.len() implies self.is_module(
                (#[trigger] self.modules.entries@[k]).value,
            ) by {
                let other = self.modules.entries@[k].name@;
                self.modules.entry_counts(k);
                if other != name@ {
                    assert(before.modules.has(other));
                    let j = choose|j: int| before.modules.first(other, j);
                    assert(before.modules.first(other, j));
                    before.modules.first_decides(other, j);
                    assert(before.is_module(before.modules.entries@[j].value));
                }
            }
            assert forall|other: SymbolId| #[trigger] self.live(other) implies self.sym(
                other,
            ).data.keyed_once() by {
                assert(before.live(other));
            }
            assert forall|other: SymbolId| #[trigger]
                self.live(other) && self.sym(other).module is Some implies self.is_module(
                self.sym(other).module->0,
            ) by {
                assert(before.live(other));
            }
            if before.models_wf() {
                assert forall|model: ModelId, other: SymbolId|
                    model < self.models.len() && #[trigger] self.classes(model).contains(
                        other,
                    ) implies self.is_model_class(other) by {
                    assert(before.classes(model).contains(other));
                    assert(before.is_model_class(other));
                }
            }
        }
    }

    /// Adds the model that the class at `symbol` defines, which has a name of its own, at the end
    /// of the table.
    pub fn add_model(&mut self, name: String, symbol: SymbolId) -> (r: ModelId)
        requires
            old(self).wf(),
            old(self).is_model_class(symbol),
            old(self).model_at(name@) is None,
            old(self).models@.len() < usize::MAX,
        ensures
            r == old(self).models@.len(),
            final(self).models@.len() == r + 1,
            final(self).models@.take(r as int) == old(self).models@,
            final(self).models@[r as int].name == name,
            final(self).classes(r) == seq![symbol],
            held(final(self).models@[r as int].dependents) == Set::<Handle>::empty(),
            final(self).symbols == old(self).symbols,
            final(self).modules == old(self).modules,
            final(self).full_version == old(self).full_version,
            final(self).main_entry == old(self).main_entry,
            final(self).rebuild_validation == old(self).rebuild_validation,
            final(self).files == old(self).files,
            final(self).wf(),
            old(self).models_wf() ==> final(self).models_wf(),
    {
        let ghost before = *self;
        let id: ModelId = self.models.len();
        if let Some(class) = &self.symbols[symbol] {
            let model = Model::new(id, name, class);
            self.models.push(model);
        }
        proof {
            assert(self.models@.take(id as int) =~= before.models@);
            assert forall|i: int, j: int| 0 <= i < j < self.models@.len() implies (
            #[trigger] self.models@[i]).name@ != (#[trigger] self.models@[j]).name@ by {
                assert(self.models@[i] == before.models@[i]);
                if j < id {
                    assert(self.models@[j] == before.models@[j]);
                } else {
                    before.unnamed_is_new(name@, i);
                }
            }
            before.still_wf(*self);
            one_member(self.symbols@, symbol);
            assert(held(self.models@[id as int].symbols) == Set::<Handle>::empty().insert(
                self.sym(symbol).handle,
            ));
            if before.models_wf() {
                assert forall|model: ModelId, other: SymbolId|
                    model < self.models.len() && #[trigger] self.classes(model).contains(
                        other,
                    ) implies self.is_model_class(other) by {
                    if model < id {
                        assert(self.models@[model as int] == before.models@[model as int]);
                        assert(before.classes(model).contains(other));
                        assert(before.is_model_class(other));
                    } else {
                        assert(other == symbol);
                    }
                }
            }
        }
        id
    }
}

/// A handle for a new position belongs to no symbol of the table.
proof fn same_members(symbols: Seq<Option<Symbol>>, set: Set<Handle>, handle: Handle)
    requires
        crate::odoo::handles_match(symbols),
        handle.id() >= symbols.len(),
    ensures
        members(symbols, set.remove(handle)) == members(symbols, set),
    decreases symbols.len(),
{
    if symbols.len() > 0 {
        let front = symbols.drop_last();
        assert forall|i: int| 0 <= i < front.len() && (#[trigger] front[i]) is Some implies front[i]->0.handle.id()
            == i by {
            assert(front[i] == symbols[i]);
        }
        same_members(front, set, handle);
        if symbols.last() is Some {
            assert(symbols[symbols.len() - 1]->0.handle.id() == symbols.len() - 1);
        }
    }
}

/// Tables stay well-formed when a symbol is dropped, or replaced by one with the same handle and
/// data.
proof fn still_wf_after_update(before: SyncOdoo, after: SyncOdoo, id: SymbolId)
    requires
        before.wf(),
        before.live(id),
        after.symbols@ == before.symbols@.update(id as int, after.symbols@[id as int]),
        after.symbols@[id as int] is None ==> !before.is_module(id),
        after.symbols@[id as int] matches Some(symbol) ==> {
            &&& symbol.handle == before.sym(id).handle
            &&& symbol.data == before.sym(id).data
            &&& symbol.module is Some ==> before.is_module(symbol.module->0)
        },
        after.modules == before.modules,
        after.files == before.files,
        after.models == before.models,
    ensures
        after.wf(),
        before.models_wf() ==> after.models_wf(),
{
    assert forall|other: SymbolId| #[trigger] before.is_module(other) implies after.is_module(
        other,
    ) by {}
    assert forall|other: SymbolId| #[trigger] after.live(other) implies after.sym(
        other,
    ).data.keyed_once() by {
        assert(before.live(other));
    }
    assert forall|i: int| 0 <= i < after.modules.entries.len() implies after.is_module(
        (#[trigger] after.modules.entries@[i]).value,
    ) by {
        assert(before.is_module(before.modules.entries@[i].value));
    }
    assert forall|other: SymbolId| #[trigger]
        after.live(other) && after.sym(other).module is Some implies after.is_module(
        after.sym(other).module->0,
    ) by {
        assert(before.live(other));
        if other != id {
            assert(before.is_module(before.sym(other).module->0));
        }
    }
    if before.models_wf() {
        assert forall|model: ModelId, other: SymbolId|
            model < after.models.len() && #[trigger] after.classes(model).contains(
                other,
            ) implies after.is_model_class(other) by {
            let set = held(after.models@[model as int].symbols);
            assert(after.symbols@.len() == after.symbols.len());
            assert(before.symbols@.len() == before.symbols.len());
            members_are_exact(after.symbols@, set);
            members_are_exact(before.symbols@, set);
            assert(before.classes(model).contains(other));
            assert(before.is_model_class(other));
        }
    }
}

/// The symbol with a given handle is the only member of the set of that handle.
proof fn one_member(symbols: Seq<Option<Symbol>>, id: SymbolId)
    requires
        crate::odoo::handles_match(symbols),
        symbols.len() <= usize::MAX,
        id < symbols.len(),
        symbols[id as int] is Some,
    ensures
        members(symbols, Set::<Handle>::empty().insert(symbols[id as int]->0.handle)) == seq![id],
{
    let set = Set::<Handle>::empty().insert(symbols[id as int]->0.handle);
    let all = members(symbols, set);
    members_are_exact(symbols, set);
    assert forall|other: SymbolId| all.contains(other) <==> seq![id].contains(other) by {
        assert(seq![id][0] == id);
        if all.contains(other) {
            assert(symbols[other as int]->0.handle.id() == other);
            assert(symbols[id as int]->0.handle.id() == id);
        }
    }
    ascending_is_unique(all, seq![id]);
}

} // verus!
