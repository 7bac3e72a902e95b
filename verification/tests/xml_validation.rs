use odoo_ls_core::constants::{BuildSteps, EntryPointType, ModelId, SymbolId};
use odoo_ls_core::diagnostics::{Diagnostic, DiagnosticCode};
use odoo_ls_core::evaluation::{ContextValue, Evaluation, TextRange};
use odoo_ls_core::fields::FieldMap;
use odoo_ls_core::file_info::FileInfo;
use odoo_ls_core::model::{Model, ModelData};
use odoo_ls_core::odoo::{EntryPoint, LogMessage, Request, SessionInfo, SyncOdoo, Version};
use odoo_ls_core::symbols::{ClassSymbol, FileSymbol, ModuleSymbol, Symbol, SymbolData, XmlFileSymbol};
use odoo_ls_core::variable_symbol::VariableSymbol;
use odoo_ls_core::xml_arch_builder::XmlArchBuilder;
use odoo_ls_core::xml_data::{OdooData, OdooDataField, OdooDataRecord};
use odoo_ls_core::xml_parse::parse_xml;
use odoo_ls_core::names::NameEntry;
use odoo_ls_core::xml_validation::{see_model, Findings, ModelSight, XmlValidator};

struct World {
    session: SessionInfo,
    base: SymbolId,
    sale: SymbolId,
    partner_file: SymbolId,
    partner: SymbolId,
    file: SymbolId,
    partner_model: ModelId,
}

const PATH: &str = "/base/data.xml";

fn module(odoo: &mut SyncOdoo, name: &str, depends: Vec<String>) -> SymbolId {
    let id = odoo.add_symbol(
        String::from(name),
        SymbolData::Module(ModuleSymbol::new(String::from(name), depends)),
    );
    odoo.add_module(id);
    id
}

fn class(odoo: &mut SyncOdoo, module: SymbolId, model: &str, fields: Vec<&str>) -> (SymbolId, SymbolId) {
    let file = odoo.add_symbol(String::from("file"), SymbolData::File(FileSymbol::new()));
    let mut data = ModelData::new();
    data.name = String::from(model);
    let mut class = ClassSymbol::new(Some(data));
    for name in fields {
        let range = TextRange { start: 0, end: 1 };
        let field = odoo.add_symbol(
            String::from(name),
            SymbolData::Variable(VariableSymbol::new(String::from(name), range, false)),
        );
        class.fields.entry(name, vec![]).push(field);
    }
    let id = odoo.add_symbol(String::from(model), SymbolData::Class(class));
    odoo.place_symbol(id, Some(module), Some(file), None);
    (file, id)
}

fn world(version: Version, disabled: Vec<DiagnosticCode>) -> World {
    let mut odoo = SyncOdoo::new(version);
    let base = module(&mut odoo, "base", vec![]);
    let sale = module(&mut odoo, "sale", vec![String::from("base")]);
    let (partner_file, partner) = class(&mut odoo, base, "res.partner", vec!["name", "email"]);
    let partner_model = odoo.add_model(String::from("res.partner"), partner);
    let (_, order) = class(&mut odoo, sale, "sale.order", vec!["name"]);
    odoo.add_model(String::from("sale.order"), order);
    let (_, view) = class(&mut odoo, base, "ir.ui.view", vec!["name", "model"]);
    odoo.add_model(String::from("ir.ui.view"), view);
    let (_, action) = class(&mut odoo, base, "ir.actions.act_window", vec!["res_model"]);
    odoo.add_model(String::from("ir.actions.act_window"), action);
    let file = odoo.add_symbol(String::from("data"), SymbolData::XmlFile(XmlFileSymbol::new()));
    odoo.place_symbol(file, Some(base), None, None);
    let symbol = odoo.symbols[file].as_mut().unwrap();
    symbol.entry = Some(EntryPointType::MAIN);
    symbol.paths.push(String::from(PATH));
    odoo.files.entry(PATH, FileInfo::new(String::from("file:///base/data.xml")));
    let session = SessionInfo::new(odoo, disabled);
    World { session, base, sale, partner_file, partner, file, partner_model }
}

fn v18() -> Version {
    Version { major: 18, minor: 0, patch: 0 }
}

impl World {
    fn load(&mut self, text: &str) {
        let root = parse_xml(text).unwrap();
        let mut info = FileInfo::new(String::from("u"));
        XmlArchBuilder::new(self.file).load_arch(&mut self.session, &mut info, &root);
        assert!(info.diagnostics.arch.unwrap().is_empty());
    }

    fn validate(&mut self) {
        let entry = EntryPoint::new(EntryPointType::MAIN);
        let mut validator = XmlValidator::new(&entry, self.file);
        assert!(validator.is_in_main_ep);
        validator.validate(&mut self.session);
    }

    fn diagnostics(&self) -> &Vec<Diagnostic> {
        let info = self.session.sync_odoo.files.get(PATH).unwrap();
        info.diagnostics.validation.as_ref().unwrap()
    }

    fn codes(&self) -> Vec<DiagnosticCode> {
        self.diagnostics().iter().map(|d| d.code).collect()
    }

    fn xml(&self) -> &XmlFileSymbol {
        match &self.session.sync_odoo.get(self.file).unwrap().data {
            SymbolData::XmlFile(xml) => xml,
            _ => panic!("not an XML file"),
        }
    }
}

fn validated_with(text: &str, version: Version) -> World {
    let mut world = world(version, vec![]);
    world.load(text);
    world.validate();
    world
}

fn codes(text: &str) -> Vec<DiagnosticCode> {
    validated_with(text, v18()).codes()
}

fn partner(fields: &str) -> String {
    format!("<odoo><record id=\"r\" model=\"res.partner\">{}</record></odoo>", fields)
}

#[test]
fn known_record_makes_the_file_depend_on_its_model() {
    let world = validated_with(&partner("<field name=\"name\">x</field>"), v18());
    assert_eq!(world.codes(), vec![]);
    let odoo = &world.session.sync_odoo;
    assert_eq!(odoo.members_of(&world.xml().dependencies), vec![world.partner_file]);
    assert_eq!(
        odoo.members_of(&odoo.models[world.partner_model].dependents),
        vec![world.file]
    );
    match &odoo.get(world.partner_file).unwrap().data {
        SymbolData::File(file) => {
            assert_eq!(odoo.members_of(&file.dependents), vec![world.file]);
        }
        _ => panic!("not a file"),
    }
    assert!(world.xml().not_found_models.get("res.partner").is_none());
    assert_eq!(odoo.members_of(&odoo.main_entry.not_found_symbols_for_models), vec![]);
}

#[test]
fn validation_asks_for_publication() {
    let world = validated_with("<odoo/>", v18());
    assert_eq!(world.session.requests.len(), 1);
    match &world.session.requests[0] {
        Request::PublishDiagnostics(path) => assert_eq!(path, PATH),
        _ => panic!("another request"),
    }
}

#[test]
fn unknown_model_is_reported_and_waited_for() {
    let text = "<odoo><record id=\"r\" model=\"no.model\"/></odoo>";
    let world = validated_with(text, v18());
    assert_eq!(world.codes(), vec![DiagnosticCode::OLS05056]);
    assert_eq!(world.diagnostics()[0].args, vec!["no.model"]);
    let range = &world.diagnostics()[0].range;
    assert_eq!(&text[range.start.line as usize..range.end.line as usize], "no.model");
    let odoo = &world.session.sync_odoo;
    assert_eq!(world.xml().not_found_models.get("no.model"), Some(&BuildSteps::VALIDATION));
    assert_eq!(
        odoo.members_of(&odoo.main_entry.not_found_symbols_for_models),
        vec![world.file]
    );
    assert_eq!(odoo.members_of(&world.xml().dependencies), vec![]);
}

#[test]
fn invisible_model_is_reported_and_waited_for() {
    let world = validated_with("<odoo><record id=\"r\" model=\"sale.order\"/></odoo>", v18());
    assert_eq!(world.codes(), vec![DiagnosticCode::OLS05055]);
    assert_eq!(world.diagnostics()[0].args, vec!["sale.order", "base"]);
    assert!(world.xml().not_found_models.get("sale.order").is_some());
}

#[test]
fn unknown_field_is_reported_over_the_whole_element() {
    let text = partner("<field name=\"nope\">x</field>");
    let world = validated_with(&text, v18());
    assert_eq!(world.codes(), vec![DiagnosticCode::OLS05057]);
    assert_eq!(world.diagnostics()[0].args, vec!["nope", "res.partner"]);
    let range = &world.diagnostics()[0].range;
    assert_eq!(
        &text[range.start.line as usize..range.end.line as usize],
        "<field name=\"nope\">x</field>"
    );
}

#[test]
fn translations_are_known_since_their_version() {
    let known = partner("<field name=\"name@fr\">x</field>");
    assert_eq!(codes(&known), vec![DiagnosticCode::OLS05057]);
    let later = Version { major: 18, minor: 2, patch: 0 };
    assert_eq!(validated_with(&known, later).codes(), vec![]);
    let unknown = partner("<field name=\"nope@fr\">x</field>");
    assert_eq!(validated_with(&unknown, later).codes(), vec![]);
    assert!(Version { major: 19, minor: 0, patch: 0 }.is_at_least(&later));
    assert!(!Version { major: 18, minor: 1, patch: 9 }.is_at_least(&later));
    assert!(later.is_at_least(&later));
}

#[test]
fn references_are_checked() {
    let field = |key: &str| partner(&format!("<field name=\"name\" ref=\"{}\"/>", key));
    assert_eq!(codes(&field("a")), vec![]);
    assert_eq!(codes(&field("")), vec![DiagnosticCode::OLS05039]);
    assert_eq!(codes(&field("base.a")), vec![]);
    assert_eq!(codes(&field("nowhere.a")), vec![DiagnosticCode::OLS05003]);
    let world = validated_with(&field("a.b.c"), v18());
    assert_eq!(world.codes(), vec![DiagnosticCode::OLS05051]);
    assert_eq!(world.diagnostics()[0].args, vec!["a.b.c"]);
}

#[test]
fn texts_that_name_models_are_checked() {
    let view = |text: &str| {
        format!(
            "<odoo><record id=\"r\" model=\"ir.ui.view\"><field name=\"model\">{}</field></record></odoo>",
            text
        )
    };
    assert_eq!(codes(&view("res.partner")), vec![]);
    let world = validated_with(&view("no.model"), v18());
    assert_eq!(world.codes(), vec![DiagnosticCode::OLS05056]);
    assert_eq!(world.diagnostics()[0].args, vec!["no.model", "ir.ui.view"]);
    assert!(world.xml().not_found_models.get("no.model").is_some());
    let world = validated_with(&view("sale.order"), v18());
    assert_eq!(world.codes(), vec![DiagnosticCode::OLS05055]);
    assert_eq!(world.diagnostics()[0].args, vec!["sale.order", "base"]);
    assert!(world.xml().not_found_models.get("sale.order").is_none());
    let action = "<odoo><record id=\"r\" model=\"ir.actions.act_window\">\
                  <field name=\"res_model\">no.model</field></record></odoo>";
    assert_eq!(codes(action), vec![DiagnosticCode::OLS05056]);
    let other = partner("<field name=\"name\">no.model</field>");
    assert_eq!(codes(&other), vec![]);
}

#[test]
fn switched_off_codes_are_silent_but_models_are_waited_for() {
    let mut world = world(v18(), vec![DiagnosticCode::OLS05056]);
    world.load("<odoo><record id=\"r\" model=\"no.model\"/></odoo>");
    world.validate();
    assert_eq!(world.codes(), vec![]);
    assert!(world.xml().not_found_models.get("no.model").is_some());
}

#[test]
fn declarations_without_model_are_not_checked() {
    assert_eq!(
        codes("<odoo><menuitem id=\"m\"/><template id=\"t\"/><delete id=\"d\" model=\"no.model\"/></odoo>"),
        vec![]
    );
}

#[test]
fn declarations_of_dropped_files_are_not_checked() {
    let mut world = world(v18(), vec![]);
    world.load("<odoo><record id=\"r\" model=\"no.model\"/></odoo>");
    let gone = world.session.sync_odoo.add_symbol(
        String::from("gone"),
        SymbolData::XmlFile(XmlFileSymbol::new()),
    );
    let mut diagnostics = vec![];
    let ids = SyncOdoo::get_xml_ids(&world.session, world.file, "r", &(0..0), &mut diagnostics);
    assert_eq!(ids.len(), 1);
    let entry = EntryPoint::new(EntryPointType::CUSTOM);
    let validator = XmlValidator::new(&entry, world.file);
    assert!(!validator.is_in_main_ep);
    let mut found = empty();
    validator.validate_xml_id(&world.session, world.base, ids[0], &mut found);
    assert_eq!(found.diagnostics.len(), 1);
    assert_eq!(found.missing_models, vec!["no.model"]);
    world.session.sync_odoo.drop_symbol(gone);
    if let SymbolData::XmlFile(xml) =
        &mut world.session.sync_odoo.symbols[world.file].as_mut().unwrap().data
    {
        for data in xml.xml_ids.entry("r", vec![]).iter_mut() {
            data.set_file_symbol(gone);
        }
    }
    let ids = SyncOdoo::get_xml_ids(&world.session, world.file, "r", &(0..0), &mut diagnostics);
    let mut found = empty();
    validator.validate_xml_id(&world.session, world.base, ids[0], &mut found);
    assert_eq!(found.diagnostics.len(), 0);
}

fn empty() -> Findings {
    Findings {
        diagnostics: vec![],
        dependencies: vec![],
        model_dependencies: vec![],
        missing_models: vec![],
        messages: vec![],
    }
}

#[test]
fn model_change_revalidates_its_files() {
    let mut world = validated_with(&partner(""), v18());
    let (_, extension) =
        class(&mut world.session.sync_odoo, world.base, "res.partner", vec!["phone"]);
    Model::add_symbol(world.partner_model, &mut world.session, extension);
    let odoo = &world.session.sync_odoo;
    assert_eq!(odoo.members_of(&odoo.rebuild_validation), vec![world.file]);
    assert_eq!(odoo.get_classes(world.partner_model), vec![world.partner, extension]);
}

#[test]
fn new_class_revalidates_every_dependent() {
    let mut world = world(v18(), vec![]);
    let odoo = &mut world.session.sync_odoo;
    let file = odoo.add_symbol(String::from("d"), SymbolData::XmlFile(XmlFileSymbol::new()));
    odoo.place_symbol(file, Some(world.base), None, None);
    let symbol = odoo.symbols[file].as_ref().unwrap();
    odoo.models[world.partner_model].add_dependent(symbol);
    let (_, extension) = class(odoo, world.sale, "res.partner", vec![]);
    Model::add_symbol(world.partner_model, &mut world.session, extension);
    let odoo = &world.session.sync_odoo;
    assert_eq!(odoo.members_of(&odoo.rebuild_validation), vec![file]);
}

#[test]
fn removal_elsewhere_does_not_matter() {
    let mut world = world(v18(), vec![]);
    let odoo = &mut world.session.sync_odoo;
    let file = odoo.add_symbol(String::from("d"), SymbolData::XmlFile(XmlFileSymbol::new()));
    odoo.place_symbol(file, Some(world.base), None, None);
    let (_, extension) = class(odoo, world.sale, "res.partner", vec![]);
    let sale = world.sale;
    Model::add_symbol(world.partner_model, &mut world.session, extension);
    let odoo = &mut world.session.sync_odoo;
    let symbol = odoo.symbols[file].as_ref().unwrap();
    odoo.models[world.partner_model].add_dependent(symbol);
    Model::remove_symbol(world.partner_model, &mut world.session, extension, Some(sale));
    let odoo = &world.session.sync_odoo;
    assert_eq!(odoo.members_of(&odoo.rebuild_validation), vec![]);
    assert_eq!(odoo.get_classes(world.partner_model), vec![world.partner]);
}

#[test]
fn mandatory_fields_that_stay_open_are_named() {
    let mut world = world(v18(), vec![]);
    let odoo = &mut world.session.sync_odoo;
    let mut known = FieldMap::new();
    for (name, required, default) in
        [("a", true, false), ("b", true, true), ("c", false, false), ("d", true, false)]
    {
        let mut eval = Evaluation::eval_from_symbol(0, None);
        let value = ContextValue::BOOLEAN(required);
        *eval.symbol.context.entry("required", ContextValue::BOOLEAN(false)) = value;
        if default {
            eval.symbol.context.entry("default", ContextValue::BOOLEAN(true));
        }
        let mut variable =
            VariableSymbol::new(String::from(name), TextRange { start: 0, end: 1 }, false);
        variable.evaluations.push(eval);
        let id = odoo.add_symbol(String::from(name), SymbolData::Variable(variable));
        known.entry(name, vec![]).push((id, None));
    }
    world.load(&partner("<field name=\"a\">1</field>"));
    let mut diagnostics = vec![];
    let ids = SyncOdoo::get_xml_ids(&world.session, world.file, "r", &(0..0), &mut diagnostics);
    let record = match ids[0] {
        OdooData::RECORD(record) => record,
        _ => panic!("not a record"),
    };
    let validator = XmlValidator::new(&EntryPoint::new(EntryPointType::MAIN), world.file);
    let mut found = empty();
    let left = validator.validate_fields(&world.session, record, &known, &mut found);
    assert_eq!(left, vec!["d"]);
    assert!(found.diagnostics.is_empty());
}

#[test]
fn all_fields_come_from_bases_and_delegates() {
    let mut world = world(v18(), vec![]);
    let odoo = &mut world.session.sync_odoo;
    let (_, user) = class(odoo, world.base, "res.users", vec!["login"]);
    let (_, own) = class(odoo, world.sale, "res.users", vec!["note"]);
    for id in [user, own] {
        if let SymbolData::Class(c) = &mut odoo.symbols[id].as_mut().unwrap().data {
            let data = c.model.as_mut().unwrap();
            if id == user {
                data.inherits.push((String::from("res.partner"), String::from("partner_id")));
            } else {
                data.inherit.push(String::from("res.users"));
            }
        }
    }
    let model = odoo.add_model(String::from("res.users"), user);
    Model::add_symbol(model, &mut world.session, own);
    let mut messages: Vec<LogMessage> = vec![];
    let fields =
        Symbol::all_fields(user, &world.session.sync_odoo, Some(world.base), &mut messages);
    assert!(fields.get("login").is_some());
    assert!(fields.get("email").is_some());
    assert_eq!(fields.get("login").unwrap()[0].1, None);
    assert_eq!(fields.get("note").unwrap()[0].1.as_deref(), Some("sale"));
    assert!(fields.get("phone").is_none());
    assert!(messages.is_empty());
}

#[test]
fn places_fit_in_positions() {
    let last = u32::MAX as usize;
    let record = |model: usize, key: usize, text: usize, whole: usize| {
        OdooData::RECORD(OdooDataRecord {
            file_symbol: 0,
            model: (String::from("res.partner"), 0..model),
            xml_id: None,
            fields: vec![OdooDataField {
                name: String::from("name"),
                range: 0..whole,
                text: Some(String::from("text")),
                ref_key: Some((String::from("key"), 0..key)),
                text_range: Some(0..text),
            }],
            range: 0..last + 1,
        })
    };
    assert!(record(last, last, last, last).is_placed());
    assert!(!record(last + 1, 0, 0, 0).is_placed());
    assert!(!record(0, last + 1, 0, 0).is_placed());
    assert!(!record(0, 0, last + 1, 0).is_placed());
    assert!(!record(0, 0, 0, last + 1).is_placed());
}

#[test]
fn validation_goes_over_what_was_loaded() {
    let world = validated_with(
        "<odoo><record id=\"b\" model=\"no.b\"/><record id=\"a\" model=\"no.a\"/>\
         <record id=\"b\" model=\"no.c\"/></odoo>",
        v18(),
    );
    let names: Vec<&str> = world.xml().xml_ids.entries.iter().map(|e| e.name.as_str()).collect();
    assert_eq!(names, vec!["b", "a"]);
    let missed: Vec<&str> =
        world.xml().not_found_models.entries.iter().map(|e| e.name.as_str()).collect();
    assert_eq!(missed, vec!["no.b", "no.c", "no.a"]);
    let args: Vec<&str> = world.diagnostics().iter().map(|d| d.args[0].as_str()).collect();
    assert_eq!(args, vec!["no.b", "no.c", "no.a"]);
}

#[test]
fn only_files_of_named_models_are_asked_for() {
    let mut world = validated_with(&partner(""), v18());
    let validator = XmlValidator::new(&EntryPoint::new(EntryPointType::MAIN), world.file);
    assert!(validator.is_validatable(&world.session));
    let odoo = &mut world.session.sync_odoo;
    let mut data = ModelData::new();
    data.name = String::from("loose");
    let loose = odoo
        .add_symbol(String::from("Loose"), SymbolData::Class(ClassSymbol::new(Some(data))));
    odoo.place_symbol(loose, Some(world.base), None, None);
    odoo.add_model(String::from("loose"), loose);
    assert!(validator.is_validatable(&world.session));
    let odoo = &mut world.session.sync_odoo;
    odoo.drop_symbol(world.partner_file);
    assert!(!validator.is_validatable(&world.session));
}

#[test]
fn tables_are_tested() {
    let mut world = world(v18(), vec![]);
    assert!(world.session.sync_odoo.is_wf());
    assert!(world.session.sync_odoo.is_models_wf());
    assert!(XmlArchBuilder::new(world.file).is_ready(&world.session));
    assert!(!XmlArchBuilder::new(world.base).is_ready(&world.session));
    let odoo = &mut world.session.sync_odoo;
    if let SymbolData::XmlFile(xml) = &mut odoo.symbols[world.file].as_mut().unwrap().data {
        for _ in 0..2 {
            xml.xml_ids.entries.push(NameEntry { name: String::from("a"), value: vec![] });
        }
    }
    assert!(!odoo.is_wf());
}

#[test]
fn modules_see_models_through_their_classes() {
    let world = world(v18(), vec![]);
    let see = |module: SymbolId, name: &str| see_model(&world.session, module, name);
    assert!(matches!(see(world.base, "no.model"), ModelSight::Missing));
    assert!(matches!(see(world.base, "sale.order"), ModelSight::Unseen));
    match see(world.sale, "res.partner") {
        ModelSight::Seen(model, mains) => {
            assert_eq!((model, mains), (world.partner_model, vec![world.partner]));
        }
        _ => panic!("not seen"),
    }
}
