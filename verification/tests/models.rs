use odoo_ls_core::constants::{BuildStatus, MessageType, ModelId, SymbolId};
use odoo_ls_core::evaluation::TextRange;
use odoo_ls_core::function_symbol::FunctionSymbol;
use odoo_ls_core::model::{Model, ModelData};
use odoo_ls_core::odoo::{Request, SessionInfo, SyncOdoo, Version};
use odoo_ls_core::symbols::{ClassSymbol, ModuleSymbol, SymbolData};

struct World {
    session: SessionInfo,
    base: SymbolId,
    sale: SymbolId,
}

fn world() -> World {
    let mut odoo = SyncOdoo::new(Version { major: 18, minor: 0, patch: 0 });
    let base = odoo.add_symbol(
        String::from("base"),
        SymbolData::Module(ModuleSymbol::new(String::from("base"), vec![])),
    );
    let sale = odoo.add_symbol(
        String::from("sale"),
        SymbolData::Module(ModuleSymbol::new(String::from("sale"), vec![String::from("base")])),
    );
    World { session: SessionInfo::new(odoo, vec![]), base, sale }
}

impl World {
    fn class(
        &mut self,
        module: Option<SymbolId>,
        name: &str,
        inherit: Vec<&str>,
        inherits: Vec<&str>,
    ) -> SymbolId {
        let mut data = ModelData::new();
        data.name = String::from(name);
        data.inherit = inherit.into_iter().map(String::from).collect();
        data.inherits =
            inherits.into_iter().map(|m| (String::from(m), String::from("field_id"))).collect();
        let odoo = &mut self.session.sync_odoo;
        let id =
            odoo.add_symbol(String::from(name), SymbolData::Class(ClassSymbol::new(Some(data))));
        odoo.place_symbol(id, module, None, None);
        id
    }

    fn model(&mut self, name: &str, class: SymbolId) -> ModelId {
        self.session.sync_odoo.add_model(String::from(name), class)
    }

    fn add(&mut self, model: ModelId, class: SymbolId) {
        Model::add_symbol(model, &mut self.session, class);
    }

    fn function(&mut self, module: Option<SymbolId>) -> SymbolId {
        let range = TextRange { start: 0, end: 9 };
        let mut function = FunctionSymbol::new(String::from("f"), range, 3, false);
        function.arch_eval_status = BuildStatus::DONE;
        let odoo = &mut self.session.sync_odoo;
        let id = odoo.add_symbol(String::from("f"), SymbolData::Function(function));
        odoo.place_symbol(id, module, None, None);
        id
    }

    fn depend(&mut self, model: ModelId, id: SymbolId) {
        let odoo = &mut self.session.sync_odoo;
        let symbol = odoo.symbols[id].as_ref().unwrap();
        odoo.models[model].add_dependent(symbol);
    }

    fn waiting(&self) -> Vec<SymbolId> {
        let odoo = &self.session.sync_odoo;
        odoo.members_of(&odoo.rebuild_validation)
    }
}

#[test]
fn model_data_defaults() {
    let data = ModelData::new();
    assert_eq!(data.name, "");
    assert_eq!(data.order, "id");
    assert_eq!(data.parent_name, "parent_id");
    assert_eq!(data.data_name, "date");
    assert_eq!(data.fold_name, "fold");
    assert_eq!(data.rec_name, None);
    assert!(!data.auto && !data.transient && !data.is_abstract);
    assert!(data.inherit.is_empty() && data.inherits.is_empty());
}

#[test]
fn classes_are_told_apart_by_visibility() {
    let mut w = world();
    let main = w.class(Some(w.base), "res.partner", vec![], vec![]);
    let extension = w.class(Some(w.sale), "res.partner", vec!["res.partner"], vec![]);
    let model = w.model("res.partner", main);
    w.add(model, extension);
    let s = &w.session;
    assert_eq!(Model::get_symbols(model, s, None), vec![main, extension]);
    assert_eq!(Model::get_symbols(model, s, Some(w.sale)), vec![main, extension]);
    assert_eq!(Model::get_symbols(model, s, Some(w.base)), vec![main]);
    assert_eq!(Model::get_main_symbols(model, s, Some(w.sale)), vec![main]);
    assert_eq!(Model::get_main_symbols(model, s, None), vec![main]);
}

#[test]
fn main_classes_outside_modules_are_always_visible() {
    let mut w = world();
    let main = w.class(None, "m", vec![], vec![]);
    let model = w.model("m", main);
    assert_eq!(Model::get_main_symbols(model, &w.session, Some(w.base)), vec![main]);
}

#[test]
fn model_is_in_deps_by_its_main_classes() {
    let mut w = world();
    let extension = w.class(Some(w.base), "m", vec!["m"], vec![]);
    let model = w.model("m", extension);
    assert!(!Model::model_in_deps(model, &w.session, w.base));
    let main = w.class(Some(w.sale), "m", vec![], vec![]);
    w.add(model, main);
    assert!(!Model::model_in_deps(model, &w.session, w.base));
    assert!(Model::model_in_deps(model, &w.session, w.sale));
}

#[test]
fn dropped_classes_leave_their_model() {
    let mut w = world();
    let main = w.class(Some(w.base), "m", vec![], vec![]);
    let model = w.model("m", main);
    assert!(Model::has_symbols(model, &mut w.session));
    w.session.sync_odoo.drop_symbol(main);
    assert!(!Model::has_symbols(model, &mut w.session));
    assert_eq!(w.session.sync_odoo.get_classes(model), vec![]);
    assert_eq!(Model::get_symbols(model, &w.session, None), vec![]);
}

#[test]
fn removed_classes_leave_their_model() {
    let mut w = world();
    let main = w.class(Some(w.base), "m", vec![], vec![]);
    let other = w.class(Some(w.base), "m", vec!["m"], vec![]);
    let model = w.model("m", main);
    w.add(model, other);
    Model::remove_symbol(model, &mut w.session, main, None);
    assert_eq!(w.session.sync_odoo.get_classes(model), vec![other]);
    assert!(w.session.sync_odoo.get(main).is_some());
}

#[test]
fn adding_a_class_twice_changes_nothing() {
    let mut w = world();
    let main = w.class(Some(w.base), "m", vec![], vec![]);
    let other = w.class(Some(w.base), "m", vec!["m"], vec![]);
    let model = w.model("m", main);
    let function = w.function(Some(w.base));
    w.depend(model, function);
    w.add(model, other);
    assert_eq!(w.session.requests.len(), 1);
    w.add(model, other);
    assert_eq!(w.session.requests.len(), 1);
    assert_eq!(w.session.sync_odoo.get_classes(model), vec![main, other]);
}

#[test]
fn dependents_are_told_of_changes() {
    let mut w = world();
    let main = w.class(Some(w.base), "m", vec![], vec![]);
    let model = w.model("m", main);
    let near = w.function(Some(w.sale));
    let far = w.function(Some(w.base));
    let free = w.function(None);
    for id in [near, far, free] {
        w.depend(model, id);
    }
    Model::add_dependents_to_validation(model, &mut w.session, Some(w.sale));
    assert_eq!(w.waiting(), vec![near, free]);
    let told: Vec<SymbolId> = w
        .session
        .requests
        .iter()
        .map(|r| match r {
            Request::InvalidateSubFunctions(id) => *id,
            Request::PublishDiagnostics(_) => panic!("another request"),
        })
        .collect();
    assert_eq!(told, vec![near, far, free]);
    let status = |id: SymbolId| match &w.session.sync_odoo.get(id).unwrap().data {
        SymbolData::Function(f) => f.arch_eval_status,
        _ => panic!("not a function"),
    };
    assert_eq!(status(near), BuildStatus::PENDING);
    assert_eq!(status(far), BuildStatus::DONE);
    assert_eq!(status(free), BuildStatus::PENDING);
}

#[test]
fn all_dependents_are_told_of_changes_without_module() {
    let mut w = world();
    let main = w.class(Some(w.base), "m", vec![], vec![]);
    let model = w.model("m", main);
    let function = w.function(Some(w.base));
    let class = w.class(Some(w.base), "other", vec![], vec![]);
    w.depend(model, function);
    w.depend(model, class);
    Model::add_dependents_to_validation(model, &mut w.session, None);
    assert_eq!(w.waiting(), vec![function, class]);
}

#[test]
fn all_symbols_name_the_missing_dependency() {
    let mut w = world();
    let main = w.class(Some(w.base), "m", vec![], vec![]);
    let extension = w.class(Some(w.sale), "m", vec!["m"], vec![]);
    let model = w.model("m", main);
    w.add(model, extension);
    let found = Model::all_symbols(model, &mut w.session, Some(w.base), false);
    assert_eq!(found, vec![(main, None), (extension, Some(String::from("sale")))]);
    let found = Model::all_symbols(model, &mut w.session, None, false);
    assert_eq!(found, vec![(main, None), (extension, None)]);
}

#[test]
fn all_symbols_follow_inheritance_once() {
    let mut w = world();
    let mixin = w.class(Some(w.base), "mixin", vec!["deep"], vec![]);
    w.model("mixin", mixin);
    let deep = w.class(Some(w.base), "deep", vec!["mixin"], vec![]);
    w.model("deep", deep);
    let main = w.class(Some(w.base), "m", vec!["mixin", "unknown"], vec![]);
    let model = w.model("m", main);
    let own = Model::all_symbols(model, &mut w.session, Some(w.base), false);
    assert_eq!(own, vec![(main, None)]);
    let all = Model::all_symbols(model, &mut w.session, Some(w.base), true);
    assert_eq!(all, vec![(main, None), (mixin, None), (deep, None)]);
}

#[test]
fn all_symbols_list_an_extended_model_again() {
    let mut w = world();
    let main = w.class(Some(w.base), "m", vec![], vec![]);
    let extension = w.class(Some(w.base), "m", vec!["m"], vec![]);
    let model = w.model("m", main);
    w.add(model, extension);
    let all = Model::all_symbols(model, &mut w.session, Some(w.base), true);
    assert_eq!(all, vec![(main, None), (extension, None), (main, None), (extension, None)]);
}

#[test]
fn classes_outside_modules_are_logged() {
    let mut w = world();
    let main = w.class(None, "m", vec![], vec![]);
    let model = w.model("m", main);
    let found = Model::all_symbols(model, &mut w.session, Some(w.base), true);
    assert_eq!(found, vec![]);
    assert_eq!(w.session.messages.len(), 1);
    assert_eq!(w.session.messages[0].typ, MessageType::WARNING);
    assert_eq!(w.session.messages[0].message, "A model should be declared in a module.");
    let found = Model::all_symbols(model, &mut w.session, None, true);
    assert_eq!(found, vec![(main, None)]);
    assert_eq!(w.session.messages.len(), 1);
}

#[test]
fn delegated_classes_come_apart() {
    let mut w = world();
    let partner = w.class(Some(w.base), "partner", vec!["mixin"], vec![]);
    w.model("partner", partner);
    let mixin = w.class(Some(w.base), "mixin", vec![], vec![]);
    w.model("mixin", mixin);
    let user = w.class(Some(w.base), "user", vec![], vec!["partner"]);
    let model = w.model("user", user);
    let (own, delegated) = Model::all_symbols_inherits(model, &mut w.session, Some(w.base));
    assert_eq!(own, vec![(user, None)]);
    assert_eq!(delegated, vec![(partner, None), (mixin, None)]);
}

#[test]
fn inherited_models_go_before_delegated_ones() {
    let mut w = world();
    let shared = w.class(Some(w.base), "shared", vec![], vec![]);
    w.model("shared", shared);
    let user = w.class(Some(w.base), "user", vec!["shared"], vec!["shared"]);
    let model = w.model("user", user);
    let (own, delegated) = Model::all_symbols_inherits(model, &mut w.session, None);
    assert_eq!(own, vec![(user, None), (shared, None)]);
    assert_eq!(delegated, vec![]);
}

#[test]
fn delegated_models_are_listed_once() {
    let mut w = world();
    let a = w.class(Some(w.base), "a", vec![], vec![]);
    let model_a = w.model("a", a);
    let user = w.class(Some(w.base), "user", vec![], vec!["a", "unknown", "a"]);
    let more = w.class(Some(w.base), "user", vec!["user"], vec!["a"]);
    let model = w.model("user", user);
    w.add(model, more);
    assert_eq!(Model::get_inherits_models(model, &w.session, Some(w.base)), vec![model_a]);
    assert_eq!(Model::get_inherits_models(model, &w.session, None), vec![]);
}

#[test]
fn full_symbols_follow_visible_classes() {
    let mut w = world();
    let mixin = w.class(Some(w.base), "mixin", vec![], vec![]);
    let mixin_model = w.model("mixin", mixin);
    let hidden = w.class(Some(w.sale), "mixin", vec!["mixin"], vec![]);
    w.add(mixin_model, hidden);
    let main = w.class(Some(w.base), "m", vec!["mixin"], vec![]);
    let model = w.model("m", main);
    let odoo = &w.session.sync_odoo;
    let seen = Model::get_full_model_symbols(model, &w.session, w.base);
    assert_eq!(odoo.members_of(&seen), vec![mixin, main]);
    let seen = Model::get_full_model_symbols(model, &w.session, w.sale);
    assert_eq!(odoo.members_of(&seen), vec![mixin, hidden, main]);
}

#[test]
fn models_are_found_by_name() {
    let mut w = world();
    let a = w.class(Some(w.base), "a", vec![], vec![]);
    let model = w.model("a", a);
    assert_eq!(w.session.sync_odoo.get_model("a"), Some(model));
    assert_eq!(w.session.sync_odoo.get_model("b"), None);
}

#[test]
fn classes_without_model_lead_nowhere() {
    let mut w = world();
    let a = w.class(Some(w.base), "a", vec![], vec![]);
    let model_a = w.model("a", a);
    let user = w.class(Some(w.base), "user", vec!["a"], vec!["a"]);
    let model = w.model("user", user);
    let odoo = &mut w.session.sync_odoo;
    let bare =
        odoo.add_symbol(String::from("Bare"), SymbolData::Class(ClassSymbol::new(None)));
    odoo.place_symbol(bare, Some(w.base), None, None);
    w.add(model, bare);
    assert_eq!(Model::get_inherits_models(model, &w.session, Some(w.base)), vec![model_a]);
    let all = Model::get_full_model_symbols(model, &w.session, w.base);
    assert_eq!(w.session.sync_odoo.members_of(&all), vec![a, user, bare]);
    let base = w.base;
    let own = Model::all_symbols(model, &mut w.session, Some(base), false);
    assert_eq!(own, vec![(user, None), (bare, None)]);
}
