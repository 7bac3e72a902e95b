//! Odoo models and the classes that make them up.
use vstd::prelude::*;

use crate::constants::{ModelId, SymbolId};
use crate::handles::{held, Handle, HandleSet};
use crate::names::NameMap;
use crate::odoo::{members, members_are_exact, SessionInfo, SyncOdoo};
use crate::symbols::{Symbol, SymbolData};
use crate::text::{same_text, texts};
use crate::xml_ids::names_stay_apart;

verus! {

/// What a class says about the Odoo model it defines or extends.
pub struct ModelData {
    /// `_name`.
    pub name: String,
    /// `_inherit`: the models that are extended.
    pub inherit: Vec<String>,
    /// `_inherits`: model and the field that delegates to it.
    pub inherits: Vec<(String, String)>,
    pub description: String,
    pub auto: bool,
    pub log_access: bool,
    pub table: String,
    pub sequence: String,
    pub sql_constraints: Vec<String>,
    pub is_abstract: bool,
    pub transient: bool,
    pub rec_name: Option<String>,
    pub order: String,
    pub check_company_auto: bool,
    pub parent_name: String,
    pub active_name: Option<String>,
    pub parent_store: bool,
    pub data_name: String,
    pub fold_name: String,
    /// Fields by the function that computes them.
    pub computes: NameMap<Vec<String>>,
}

impl ModelData {
    /// The data of a class that says nothing.
    pub fn new() -> (r: ModelData)
        ensures
            r.name@ == ""@ && r.description@ == ""@ && r.table@ == ""@ && r.sequence@ == ""@,
            r.inherit@.len() == 0 && r.inherits@.len() == 0 && r.sql_constraints@.len() == 0,
            !r.auto && !r.log_access && !r.is_abstract && !r.transient && !r.check_company_auto
                && !r.parent_store,
            r.rec_name is None && r.active_name is None,
            r.order@ == "id"@ && r.parent_name@ == "parent_id"@,
            r.data_name@ == "date"@ && r.fold_name@ == "fold"@,
            r.computes.entries@.len() == 0,
    {
        ModelData {
            name: "".to_owned(),
            inherit: Vec::new(),
            inherits: Vec::new(),
            description: "".to_owned(),
            auto: false,
            log_access: false,
            table: "".to_owned(),
            sequence: "".to_owned(),
            sql_constraints: Vec::new(),
            is_abstract: false,
            transient: false,
            rec_name: None,
            order: "id".to_owned(),
            check_company_auto: false,
            parent_name: "parent_id".to_owned(),
            active_name: None,
            parent_store: false,
            data_name: "date".to_owned(),
            fold_name: "fold".to_owned(),
            computes: NameMap::new(),
        }
    }
}

/// All classes that define or extend the model of one name.
pub struct Model {
    pub name: String,
    pub handle: Handle,
    /// The classes.
    pub symbols: HandleSet,
    /// Symbols to validate again when the model changes.
    pub dependents: HandleSet,
}

impl ModelData {
    /// Whether the class extends the model that it names, rather than define it.
    pub open spec fn extends_itself(self) -> bool {
        texts(self.inherit@).contains(self.name@)
    }
}

impl SyncOdoo {
    /// Whether the symbol at `id` is a class of an Odoo model.
    pub open spec fn is_model_class(self, id: SymbolId) -> bool {
        self.live(id) && self.sym(id).data is Class && self.sym(id).data->Class_0.model is Some
    }

    /// What the class at `id` says about its model.
    pub open spec fn model_data(self, id: SymbolId) -> ModelData {
        self.sym(id).data->Class_0.model->0
    }

    /// The classes of a model, in ascending order.
    pub open spec fn classes(self, model: ModelId) -> Seq<SymbolId> {
        members(self.symbols@, held(self.models@[model as int].symbols))
    }

    /// Whether the classes of models are what they should be.
    pub open spec fn models_wf(self) -> bool {
        forall|model: ModelId, id: SymbolId|
            model < self.models.len() && #[trigger] self.classes(model).contains(id)
                ==> self.is_model_class(id)
    }

    /// Whether the classes of a model say that they are of one.
    pub open spec fn modelled(self, model: ModelId) -> bool {
        forall|id: SymbolId| #[trigger]
            self.classes(model).contains(id) ==> self.is_model_class(id)
    }

    /// Name of the directory of the module at `id`.
    pub open spec fn dir_of(self, id: SymbolId) -> Seq<char> {
        self.sym(id).data->Module_0.dir_name@
    }

    /// Whether the module at `from` is, or depends on, the one in directory `dir`.
    pub open spec fn in_deps(self, from: SymbolId, dir: Seq<char>) -> bool {
        self.dir_of(from) == dir || texts(self.sym(from).data->Module_0.all_depends@).contains(dir)
    }

    /// Whether the symbol at `id`, which belongs to a module, is visible from `from`.
    pub open spec fn visible(self, from: Option<SymbolId>, id: SymbolId) -> bool {
        from is Some ==> self.in_deps(from->0, self.dir_of(self.sym(id).module->0))
    }

    /// Whether the entry at `i` is the first model called `name`.
    pub open spec fn first_model(self, name: Seq<char>, i: int) -> bool {
        &&& 0 <= i < self.models@.len()
        &&& self.models@[i].name@ == name
        &&& forall|j: int| 0 <= j < i ==> (#[trigger] self.models@[j]).name@ != name
    }

    /// The model called `name`, if there is one.
    pub open spec fn model_at(self, name: Seq<char>) -> Option<ModelId> {
        if exists|i: int| self.first_model(name, i) {
            Some((choose|i: int| self.first_model(name, i)) as usize)
        } else {
            None
        }
    }

    /// The model called `name`, if there is one.
    pub fn get_model(&self, name: &str) -> (r: Option<ModelId>)
        ensures
            r == self.model_at(name@),
            r is Some ==> self.first_model(name@, r->0 as int),
    {
        let mut i: usize = 0;
        while i < self.models.len()
            invariant
                i <= self.models.len(),
                forall|j: int| 0 <= j < i ==> (#[trigger] self.models@[j]).name@ != name@,
            decreases self.models.len() - i,
        {
            if same_text(self.models[i].name.as_str(), name) {
                proof {
                    assert(self.first_model(name@, i as int));
                    let j = choose|j: int| self.first_model(name@, j);
                    assert(self.first_model(name@, j));
                    assert(!(i < j) && !(j < i));
                }
                return Some(i);
            }
            i = i + 1;
        }
        None
    }

    /// Whether the module at `from` is, or depends on, the one in directory `dir`.
    pub fn is_in_deps(&self, from: SymbolId, dir: &str) -> (r: bool)
        requires
            self.is_module(from),
        ensures
            r == self.in_deps(from, dir@),
    {
        if let Some(symbol) = self.get(from) {
            if let SymbolData::Module(module) = &symbol.data {
                return same_text(module.dir_name.as_str(), dir) || contains_text(
                    &module.all_depends,
                    dir,
                );
            }
        }
        false
    }

    /// Name of the directory of the module at `id`.
    pub fn dir_name(&self, id: SymbolId) -> (r: &str)
        requires
            self.is_module(id),
        ensures
            r@ == self.dir_of(id),
    {
        if let Some(symbol) = self.get(id) {
            if let SymbolData::Module(module) = &symbol.data {
                return module.dir_name.as_str();
            }
        }
        ""
    }

    /// The classes of a model, in ascending order.
    pub fn get_classes(&self, model: ModelId) -> (r: Vec<SymbolId>)
        requires
            self.wf(),
            model < self.models.len(),
        ensures
            r@ == self.classes(model),
            forall|i: int| 0 <= i < r.len() ==> self.live(#[trigger] r@[i]),
    {
        proof {
            assert(self.symbols@.len() == self.symbols.len());
            members_are_exact(self.symbols@, held(self.models@[model as int].symbols));
        }
        let r = self.members_of(&self.models[model].symbols);
        assert forall|i: int| 0 <= i < r.len() implies self.live(#[trigger] r@[i]) by {
            assert(r@.contains(r@[i]));
        }
        r
    }

    /// What the class at `id` says about its model, if it is of one.
    pub fn get_model_data(&self, id: SymbolId) -> (r: Option<&ModelData>)
        ensures
            r is Some == self.is_model_class(id),
            r is Some ==> *r->0 == self.model_data(id),
    {
        if let Some(symbol) = self.get(id) {
            if let SymbolData::Class(class) = &symbol.data {
                return class.model.as_ref();
            }
        }
        None
    }
}

/// Whether `name` is one of the strings.
pub fn contains_text(list: &Vec<String>, name: &str) -> (r: bool)
    ensures
        r == texts(list@).contains(name@),
{
    let mut i: usize = 0;
    while i < list.len()
        invariant
            i <= list.len(),
            forall|j: int| 0 <= j < i ==> texts(list@)[j] != name@,
        decreases list.len() - i,
    {
        if same_text(list[i].as_str(), name) {
            assert(texts(list@)[i as int] == name@);
            return true;
        }
        i = i + 1;
    }
    false
}

impl Model {
    /// A model of one class.
    pub fn new(id: ModelId, name: String, symbol: &Symbol) -> (r: Model)
        ensures
            r.name == name,
            r.handle.id() == id,
            held(r.symbols) == Set::<Handle>::empty().insert(symbol.handle),
            held(r.dependents) == Set::<Handle>::empty(),
    {
        let mut symbols = HandleSet::new();
        symbols.insert(&symbol.handle);
        Model { name, handle: Handle::new(id), symbols, dependents: HandleSet::new() }
    }

    /// The classes of the model that are visible from a module; all of them without
    /// one. Every class belongs to a module.
    pub fn get_symbols(
        model: ModelId,
        session: &SessionInfo,
        from_module: Option<SymbolId>,
    ) -> (r: Vec<SymbolId>)
        requires
            session.sync_odoo.wf(),
            model < session.sync_odoo.models.len(),
            from_module is Some ==> session.sync_odoo.is_module(from_module->0),
            forall|id: SymbolId| #[trigger]
                session.sync_odoo.classes(model).contains(id) ==> session.sync_odoo.sym(
                    id,
                ).module is Some,
        ensures
            r@ == session.sync_odoo.classes(model).filter(
                |id: SymbolId| session.sync_odoo.visible(from_module, id),
            ),
    {
        let odoo = &session.sync_odoo;
        let ids = odoo.get_classes(model);
        let ghost test = |id: SymbolId| session.sync_odoo.visible(from_module, id);
        let mut out: Vec<SymbolId> = Vec::new();
        let mut i: usize = 0;
        proof {
            reveal(Seq::filter);
            assert(ids@.take(0).filter(test) =~= Seq::empty());
        }
        while i < ids.len()
            invariant
                i <= ids.len(),
                *odoo == session.sync_odoo,
                odoo.wf(),
                model < odoo.models.len(),
                ids@ == odoo.classes(model),
                forall|j: int| 0 <= j < ids.len() ==> odoo.live(#[trigger] ids@[j]),
                from_module is Some ==> odoo.is_module(from_module->0),
                forall|id: SymbolId| #[trigger]
                    odoo.classes(model).contains(id) ==> odoo.sym(id).module is Some,
                test == (|id: SymbolId| session.sync_odoo.visible(from_module, id)),
                out@ == ids@.take(i as int).filter(test),
            decreases ids.len() - i,
        {
            let id: SymbolId = ids[i];
            proof {
                reveal(Seq::filter);
                assert(ids@.take(i + 1).drop_last() =~= ids@.take(i as int));
                assert(odoo.live(id));
                assert(odoo.classes(model).contains(ids@[i as int]));
            }
            let visible = match from_module {
                Some(from) => match odoo.module_of(id) {
                    Some(module) => odoo.is_in_deps(from, odoo.dir_name(module)),
                    None => true,
                },
                None => true,
            };
            if visible {
                out.push(id);
            }
            i = i + 1;
        }
        assert(ids@.take(i as int) =~= ids@);
        out
    }
}

impl SyncOdoo {
    /// Whether the class at `id` defines its model and is visible from a module;
    /// classes outside any module are visible from everywhere.
    pub open spec fn main_and_visible(self, from: Option<SymbolId>, id: SymbolId) -> bool {
        &&& !self.model_data(id).extends_itself()
        &&& self.sym(id).module is Some ==> self.visible(from, id)
    }

    /// The classes that define the model and are visible from a module.
    pub open spec fn main_symbols(self, model: ModelId, from: Option<SymbolId>) -> Seq<SymbolId> {
        self.classes(model).filter(|id: SymbolId| self.main_and_visible(from, id))
    }
}

impl Model {
    /// The classes that define the model, rather than extend it, and are visible from
    /// a module; all that define it without one.
    pub fn get_main_symbols(
        model: ModelId,
        session: &SessionInfo,
        from_module: Option<SymbolId>,
    ) -> (r: Vec<SymbolId>)
        requires
            session.sync_odoo.wf(),
            model < session.sync_odoo.models.len(),
            session.sync_odoo.modelled(model),
            from_module is Some ==> session.sync_odoo.is_module(from_module->0),
        ensures
            r@ == session.sync_odoo.main_symbols(model, from_module),
    {
        let odoo = &session.sync_odoo;
        let ids = odoo.get_classes(model);
        let ghost test = |id: SymbolId| session.sync_odoo.main_and_visible(from_module, id);
        let mut out: Vec<SymbolId> = Vec::new();
        let mut i: usize = 0;
        proof {
            reveal(Seq::filter);
            assert(ids@.take(0).filter(test) =~= Seq::empty());
        }
        while i < ids.len()
            invariant
                i <= ids.len(),
                *odoo == session.sync_odoo,
                odoo.wf(),
                model < odoo.models.len(),
                odoo.modelled(model),
                ids@ == odoo.classes(model),
                from_module is Some ==> odoo.is_module(from_module->0),
                test == (|id: SymbolId| session.sync_odoo.main_and_visible(from_module, id)),
                out@ == ids@.take(i as int).filter(test),
            decreases ids.len() - i,
        {
            let id: SymbolId = ids[i];
            proof {
                reveal(Seq::filter);
                assert(ids@.take(i + 1).drop_last() =~= ids@.take(i as int));
                assert(odoo.classes(model).contains(ids@[i as int]));
                assert(odoo.is_model_class(id) && odoo.live(id));
            }
            let is_main = match odoo.get_model_data(id) {
                Some(data) => !contains_text(&data.inherit, data.name.as_str()),
                None => false,
            };
            if is_main {
                let visible = match (from_module, odoo.module_of(id)) {
                    (Some(from), Some(module)) => odoo.is_in_deps(from, odoo.dir_name(module)),
                    _ => true,
                };
                if visible {
                    out.push(id);
                }
            }
            i = i + 1;
        }
        assert(ids@.take(i as int) =~= ids@);
        out
    }

    /// Whether a class that defines the model is visible from a module. Every class
    /// that defines it belongs to a module.
    pub fn model_in_deps(model: ModelId, session: &SessionInfo, from_module: SymbolId) -> (r: bool)
        requires
            session.sync_odoo.wf(),
            model < session.sync_odoo.models.len(),
            session.sync_odoo.modelled(model),
            session.sync_odoo.is_module(from_module),
            forall|id: SymbolId| #[trigger]
                session.sync_odoo.classes(model).contains(id) && !session.sync_odoo.model_data(
                    id,
                ).extends_itself() ==> session.sync_odoo.sym(id).module is Some,
        ensures
            r == exists|id: SymbolId| #[trigger]
                session.sync_odoo.classes(model).contains(id)
                    && session.sync_odoo.main_and_visible(Some(from_module), id),
    {
        let ids = Model::get_main_symbols(model, session, Some(from_module));
        proof {
            let odoo = session.sync_odoo;
            let all = odoo.classes(model);
            let test = |id: SymbolId| odoo.main_and_visible(Some(from_module), id);
            if ids.len() > 0 {
                let id = ids@[0];
                assert(all.filter(test).contains(id));
                all.lemma_filter_contains_rev(test, id);
                all.lemma_filter_pred(test, 0);
                assert(all.contains(id) && odoo.main_and_visible(Some(from_module), id));
            }
            if exists|id: SymbolId| #[trigger]
                all.contains(id) && odoo.main_and_visible(Some(from_module), id) {
                let id = choose|id: SymbolId| #[trigger]
                    all.contains(id) && odoo.main_and_visible(Some(from_module), id);
                let j = choose|j: int| 0 <= j < all.len() && all[j] == id;
                assert(test(all[j]));
                all.lemma_filter_contains(test, j);
            }
        }
        ids.len() > 0
    }

    /// Whether the model has any class left; forgets those that are gone.
    pub fn has_symbols(model: ModelId, session: &mut SessionInfo) -> (r: bool)
        requires
            old(session).sync_odoo.wf(),
            model < old(session).sync_odoo.models.len(),
        ensures
            r == (old(session).sync_odoo.classes(model).len() > 0),
            only_expired_dropped(*old(session), *final(session)),
    {
        let ghost before = session.sync_odoo;
        session.sync_odoo.models[model].symbols.remove_expired();
        proof {
            names_stay_apart(before.models@, session.sync_odoo.models@);
            before.still_wf(session.sync_odoo);
        }
        let ids = session.sync_odoo.get_classes(model);
        ids.len() > 0
    }
}

/// Whether `b` is `a` but for entries of weak sets whose symbols are gone.
pub open spec fn only_expired_dropped(a: SessionInfo, b: SessionInfo) -> bool {
    let x = a.sync_odoo;
    let y = b.sync_odoo;
    &&& a.disabled_codes == b.disabled_codes
    &&& a.messages == b.messages
    &&& a.requests == b.requests
    &&& x.full_version == y.full_version
    &&& x.symbols == y.symbols
    &&& x.modules == y.modules
    &&& x.main_entry == y.main_entry
    &&& x.rebuild_validation == y.rebuild_validation
    &&& x.files == y.files
    &&& x.models@.len() == y.models@.len()
    &&& forall|i: int|
        0 <= i < x.models@.len() ==> {
            &&& (#[trigger] x.models@[i]).name == y.models@[i].name
            &&& x.models@[i].handle == y.models@[i].handle
            &&& held(x.models@[i].symbols) == held(y.models@[i].symbols)
            &&& x.models@[i].dependents == y.models@[i].dependents
        }
}

/// Forgetting entries whose symbols are gone changes nothing that can be seen.
pub proof fn expired_is_invisible(a: SessionInfo, b: SessionInfo)
    requires
        only_expired_dropped(a, b),
        a.sync_odoo.wf(),
        a.sync_odoo.models_wf(),
    ensures
        b.sync_odoo.wf(),
        b.sync_odoo.models_wf(),
        forall|model: ModelId|
            model < a.sync_odoo.models.len() ==> #[trigger] b.sync_odoo.classes(model)
                == a.sync_odoo.classes(model),
        forall|name: Seq<char>| #[trigger]
            b.sync_odoo.model_at(name) == a.sync_odoo.model_at(name),
{
    let x = a.sync_odoo;
    let y = b.sync_odoo;
    assert forall|i: int| 0 <= i < x.models@.len() implies (#[trigger] y.models@[i]).name
        == x.models@[i].name by {
        assert(x.models@[i].name == y.models@[i].name);
    }
    names_stay_apart(x.models@, y.models@);
    x.still_wf(y);
    assert forall|model: ModelId| model < x.models.len() implies #[trigger] y.classes(model)
        == x.classes(model) by {
        assert(x.models@[model as int].name == y.models@[model as int].name);
    }
    assert forall|model: ModelId, id: SymbolId|
        model < y.models.len() && #[trigger] y.classes(model).contains(
            id,
        ) implies y.is_model_class(id) by {
        assert(x.classes(model).contains(id));
    }
    assert forall|name: Seq<char>| #[trigger] y.model_at(name) == x.model_at(name) by {
        assert forall|i: int| x.first_model(name, i) == y.first_model(name, i) by {
            if 0 <= i < x.models@.len() {
                assert(x.models@[i].name == y.models@[i].name);
                assert forall|j: int| 0 <= j < i implies (x.models@[j].name@ != name) == (
                y.models@[j].name@ != name) by {
                    assert(x.models@[j].name == y.models@[j].name);
                }
                if x.first_model(name, i) {
                    assert forall|j: int| 0 <= j < i implies (
                    #[trigger] y.models@[j]).name@ != name by {
                        assert(x.models@[j].name@ != name);
                    }
                }
                if y.first_model(name, i) {
                    assert forall|j: int| 0 <= j < i implies (
                    #[trigger] x.models@[j]).name@ != name by {
                        assert(y.models@[j].name@ != name);
                    }
                }
            }
        }
        x.first_model_is_unique(name);
        y.first_model_is_unique(name);
        if x.model_at(name) is Some {
            let i = choose|i: int| x.first_model(name, i);
            assert(x.first_model(name, i) && y.first_model(name, i));
        }
        if y.model_at(name) is Some {
            let i = choose|i: int| y.first_model(name, i);
            assert(x.first_model(name, i) && y.first_model(name, i));
        }
    }
}

impl SyncOdoo {
    /// The model of a name is the first that is called so.
    pub proof fn model_at_is_first(self, name: Seq<char>)
        requires
            self.model_at(name) is Some,
        ensures
            self.first_model(name, self.model_at(name)->0 as int),
    {
        let i = choose|i: int| self.first_model(name, i);
        assert(self.first_model(name, i));
        assert(self.models@.len() == self.models.len());
    }

    /// Where no model is found by a name, none has that name.
    pub proof fn unnamed_is_new(self, name: Seq<char>, i: int)
        requires
            self.model_at(name) is None,
            0 <= i < self.models@.len(),
        ensures
            self.models@[i].name@ != name,
        decreases i,
    {
        if self.models@[i].name@ == name && !self.first_model(name, i) {
            let j = choose|j: int| 0 <= j < i && (#[trigger] self.models@[j]).name@ == name;
            self.unnamed_is_new(name, j);
        }
    }

    /// Every model is found by its name.
    pub proof fn named_is_found(self, i: int)
        requires
            self.wf(),
            0 <= i < self.models@.len(),
        ensures
            self.first_model(self.models@[i].name@, i),
            self.model_at(self.models@[i].name@) == Some(i as usize),
    {
        let name = self.models@[i].name@;
        assert(self.first_model(name, i));
        self.first_model_is_unique(name);
        self.model_at_is_first(name);
        assert(self.models@.len() == self.models.len());
    }

    /// There is at most one first model of a name.
    pub proof fn first_model_is_unique(self, name: Seq<char>)
        ensures
            forall|i: int, j: int|
                #[trigger] self.first_model(name, i) && #[trigger] self.first_model(name, j) ==> i
                    == j,
    {
        assert forall|i: int, j: int|
            #[trigger] self.first_model(name, i) && #[trigger] self.first_model(
                name,
                j,
            ) implies i == j by {
            assert(!(i < j) && !(j < i));
        }
    }
}

} // verus!
