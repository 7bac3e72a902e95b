use odoo_ls_core::constants::{BuildStatus, BuildSteps, EntryPointType, SymbolId};
use odoo_ls_core::diagnostics::{Diagnostic, DiagnosticCode};
use odoo_ls_core::file_info::FileInfo;
use odoo_ls_core::odoo::{SessionInfo, SyncOdoo, Version};
use odoo_ls_core::symbols::{ModuleSymbol, SymbolData, XmlFileSymbol};
use odoo_ls_core::xml_arch_builder::XmlArchBuilder;
use odoo_ls_core::xml_data::{OdooData, XmlDataDelete};
use odoo_ls_core::xml_node::{NodeKind, XmlAttribute};
use odoo_ls_core::xml_parse::{build_tree, parse_xml, FlatNode};

struct Loaded {
    session: SessionInfo,
    base: SymbolId,
    sale: SymbolId,
    file: SymbolId,
    diagnostics: Vec<Diagnostic>,
}

impl Loaded {
    fn codes(&self) -> Vec<DiagnosticCode> {
        self.diagnostics.iter().map(|d| d.code).collect()
    }

    fn ids_of(&self, xml_id: &str) -> Vec<&OdooData> {
        let mut diagnostics = vec![];
        let found =
            SyncOdoo::get_xml_ids(&self.session, self.file, xml_id, &(0..0), &mut diagnostics);
        assert!(diagnostics.is_empty());
        found
    }
}

fn xml_file(odoo: &mut SyncOdoo, module: SymbolId, entry: EntryPointType) -> SymbolId {
    let file = odoo.add_symbol(
        String::from("data"),
        SymbolData::XmlFile(XmlFileSymbol::new()),
    );
    odoo.place_symbol(file, Some(module), None, None);
    let symbol = odoo.symbols[file].as_mut().unwrap();
    symbol.entry = Some(entry);
    symbol.paths.push(String::from("/base/data.xml"));
    file
}

fn load_with(text: &str, disabled: Vec<DiagnosticCode>, entry: EntryPointType) -> Loaded {
    let mut odoo = SyncOdoo::new(Version { major: 18, minor: 0, patch: 0 });
    let base = odoo.add_symbol(
        String::from("base"),
        SymbolData::Module(ModuleSymbol::new(String::from("base"), vec![])),
    );
    let sale = odoo.add_symbol(
        String::from("sale"),
        SymbolData::Module(ModuleSymbol::new(String::from("sale"), vec![String::from("base")])),
    );
    odoo.add_module(base);
    odoo.add_module(sale);
    let file = xml_file(&mut odoo, base, entry);
    let mut session = SessionInfo::new(odoo, disabled);
    let root = parse_xml(text).unwrap();
    let mut builder = XmlArchBuilder::new(file);
    let mut info = FileInfo::new(String::from("file:///base/data.xml"));
    builder.load_arch(&mut session, &mut info, &root);
    let diagnostics = info.diagnostics.arch.unwrap();
    Loaded { session, base, sale, file, diagnostics }
}

fn load(text: &str) -> Loaded {
    load_with(text, vec![], EntryPointType::MAIN)
}

fn codes(text: &str) -> Vec<DiagnosticCode> {
    load(text).codes()
}

fn field_codes(attributes: &str, content: &str) -> Vec<DiagnosticCode> {
    codes(&format!(
        "<odoo><record id=\"r\" model=\"m\"><field {}>{}</field></record></odoo>",
        attributes, content
    ))
}

fn value_codes(attributes: &str, content: &str) -> Vec<DiagnosticCode> {
    codes(&format!(
        "<odoo><function model=\"m\" name=\"n\"><value {}>{}</value></function></odoo>",
        attributes, content
    ))
}

const GROUP: &str = "<record id=\"user\" model=\"res.groups\"/>";

#[test]
fn clean_file_has_no_diagnostics() {
    let loaded = load(
        "<odoo noupdate=\"1\" auto_sequence=\"1\" uid=\"1\" context=\"{}\"><data>\
         <record id=\"r\" model=\"res.partner\" forcecreate=\"1\" uid=\"1\" context=\"{}\">\
         <field name=\"name\">x</field><!-- c --></record></data>\
         <template id=\"t\"/><delete id=\"d\" model=\"m\"/></odoo>",
    );
    assert!(loaded.diagnostics.is_empty());
}

#[test]
fn loading_sets_status_and_queues_validation() {
    let loaded = load("<odoo/>");
    let odoo = &loaded.session.sync_odoo;
    match &odoo.get(loaded.file).unwrap().data {
        SymbolData::XmlFile(file) => {
            assert_eq!(file.arch_status, BuildStatus::DONE);
            assert_eq!(file.validation_status, BuildStatus::PENDING);
        }
        _ => panic!("not an XML file"),
    }
    assert_eq!(odoo.members_of(&odoo.rebuild_validation), vec![loaded.file]);
}

#[test]
fn loading_replaces_earlier_diagnostics_of_the_step_only() {
    let mut loaded = load("<odoo/>");
    let mut info = FileInfo::new(String::from("u"));
    let root = parse_xml("<odoo a=\"1\"/>").unwrap();
    let mut builder = XmlArchBuilder::new(loaded.file);
    info.replace_diagnostics(BuildSteps::VALIDATION, vec![]);
    builder.load_arch(&mut loaded.session, &mut info, &root);
    builder.load_arch(&mut loaded.session, &mut info, &root);
    assert_eq!(info.diagnostics.arch.as_ref().unwrap().len(), 1);
    assert_eq!(info.diagnostics.validation.as_ref().unwrap().len(), 0);
    assert!(info.diagnostics.arch_eval.is_none());
}

#[test]
fn root_attribute_is_reported_with_its_range() {
    let loaded = load("<odoo bad=\"1\"/>");
    assert_eq!(loaded.codes(), vec![DiagnosticCode::OLS05004]);
    let diagnostic = &loaded.diagnostics[0];
    assert_eq!(diagnostic.args, vec!["bad", "odoo"]);
    assert_eq!(diagnostic.range.start.line, 6);
    assert_eq!(diagnostic.range.start.character, 0);
    assert_eq!(diagnostic.range.end.line, 13);
}

#[test]
fn root_child_is_reported() {
    let loaded = load("<openerp><data><other/></data></openerp>");
    assert_eq!(loaded.codes(), vec![DiagnosticCode::OLS05005]);
    assert_eq!(loaded.diagnostics[0].args, vec!["other", "data"]);
}

#[test]
fn report_rules() {
    assert_eq!(codes("<odoo><report model='m' name='n' string='s' id='r'/></odoo>"), vec![]);
    let text = "<odoo><report name='n'/></odoo>";
    let loaded = load(text);
    assert_eq!(loaded.codes(), vec![DiagnosticCode::OLS05044, DiagnosticCode::OLS05044]);
    assert_eq!(loaded.diagnostics[0].args, vec!["model"]);
    assert_eq!(loaded.diagnostics[1].args, vec!["string"]);
    assert_eq!(loaded.diagnostics[0].range.start.line, 6);
    assert_eq!(loaded.diagnostics[0].range.end.line as usize, text.len() - "</odoo>".len());
    let loaded = load("<odoo><report model='m' string='s'/></odoo>");
    assert_eq!(loaded.codes(), vec![DiagnosticCode::OLS05044]);
    assert_eq!(loaded.diagnostics[0].args, vec!["name"]);
}

#[test]
fn other_roots_are_left_alone() {
    let loaded = load("<template id=\"t\" bad=\"1\"/>");
    assert!(loaded.diagnostics.is_empty());
    assert!(loaded.ids_of("t").is_empty());
}

#[test]
fn menuitem_rules() {
    assert_eq!(codes("<odoo><menuitem name=\"x\"/></odoo>"), vec![DiagnosticCode::OLS05006]);
    assert_eq!(
        codes("<odoo><menuitem id=\"m\" bad=\"1\"/></odoo>"),
        vec![DiagnosticCode::OLS05007]
    );
    assert_eq!(
        codes("<odoo><menuitem id=\"m\" sequence=\"a\"/></odoo>"),
        vec![DiagnosticCode::OLS05008]
    );
    assert_eq!(codes("<odoo><menuitem id=\"m\" sequence=\"-3\"/></odoo>"), vec![]);
    assert_eq!(
        codes("<odoo><menuitem id=\"m\"><field/></menuitem></odoo>"),
        vec![DiagnosticCode::OLS05011]
    );
}

#[test]
fn menuitem_web_icon_is_for_top_menus() {
    assert_eq!(codes("<odoo><menuitem id=\"m\" web_icon=\"i\"/></odoo>"), vec![]);
    assert_eq!(
        codes("<odoo><menuitem id=\"p\"/><menuitem id=\"m\" parent=\"p\" web_icon=\"i\"/></odoo>"),
        vec![DiagnosticCode::OLS05010]
    );
    assert_eq!(
        codes("<odoo><menuitem id=\"p\"><menuitem id=\"m\" web_icon=\"i\"/></menuitem></odoo>"),
        vec![DiagnosticCode::OLS05010]
    );
}

#[test]
fn menuitem_parent_must_exist() {
    assert_eq!(
        codes("<odoo><menuitem id=\"m\" parent=\"nowhere\"/></odoo>"),
        vec![DiagnosticCode::OLS05052]
    );
    assert_eq!(codes("<odoo><menuitem id=\"p\"/><menuitem id=\"m\" parent=\"p\"/></odoo>"), vec![]);
    assert_eq!(
        codes("<odoo><menuitem id=\"p\"/><menuitem id=\"m\" parent=\"base.p\"/></odoo>"),
        vec![]
    );
    assert_eq!(
        codes("<odoo><menuitem id=\"p\"/><menuitem id=\"m\" parent=\"sale.p\"/></odoo>"),
        vec![DiagnosticCode::OLS05052]
    );
}

#[test]
fn menuitem_parent_is_refused_in_submenus() {
    assert_eq!(
        codes("<odoo><menuitem id=\"p\"><menuitem id=\"m\" parent=\"p\"/></menuitem></odoo>"),
        vec![DiagnosticCode::OLS05012]
    );
}

#[test]
fn menuitem_action_must_exist() {
    assert_eq!(
        codes("<odoo><menuitem id=\"m\" action=\"a\"/></odoo>"),
        vec![DiagnosticCode::OLS05053]
    );
    assert_eq!(
        codes("<odoo><record id=\"a\" model=\"x\"/><menuitem id=\"m\" action=\"a\"/></odoo>"),
        vec![]
    );
}

#[test]
fn menuitem_action_refuses_submenus_below_a_parent() {
    let loaded = load(
        "<odoo><record id=\"a\" model=\"x\"/><menuitem id=\"p\"/>\
         <menuitem id=\"m\" parent=\"p\" action=\"a\"><menuitem id=\"s\"/></menuitem></odoo>",
    );
    assert_eq!(loaded.codes(), vec![DiagnosticCode::OLS05009]);
    assert_eq!(
        codes(
            "<odoo><record id=\"a\" model=\"x\"/>\
             <menuitem id=\"m\" action=\"a\"><menuitem id=\"s\"/></menuitem></odoo>"
        ),
        vec![]
    );
}

#[test]
fn menuitem_groups_must_be_groups() {
    let text = format!(
        "<odoo>{}<record id=\"other\" model=\"x\"/>\
         <menuitem id=\"m\" groups=\"user,-base.user,other,-none\"/></odoo>",
        GROUP
    );
    let loaded = load(&text);
    assert_eq!(loaded.codes(), vec![DiagnosticCode::OLS05054]);
    assert_eq!(loaded.diagnostics[0].args, vec!["other,-none"]);
    let fine = format!("<odoo>{}<menuitem id=\"m\" groups=\"user,-user\"/></odoo>", GROUP);
    assert_eq!(codes(&fine), vec![]);
}

#[test]
fn group_lookup_takes_no_leading_minus() {
    let loaded = load(&format!("<odoo>{}</odoo>", GROUP));
    let builder = XmlArchBuilder::new(loaded.file);
    let attr = XmlAttribute {
        name: String::from("groups"),
        value: String::from("-user"),
        range: 3..9,
        value_range: 4..8,
    };
    let mut diagnostics = vec![];
    let found = builder.get_group_ids(&loaded.session, "-user", &attr, &mut diagnostics);
    assert_eq!(found.len(), 1);
    assert!(diagnostics.is_empty());
    let none = builder.get_group_ids(&loaded.session, "a.b.c", &attr, &mut diagnostics);
    assert_eq!(none.len(), 0);
    assert_eq!(diagnostics[0].code, DiagnosticCode::OLS05051);
    assert_eq!(diagnostics[0].range.start.line, 3);
}

#[test]
fn record_rules() {
    assert_eq!(
        codes("<odoo><record id=\"r\" model=\"m\" bad=\"1\"/></odoo>"),
        vec![DiagnosticCode::OLS05013]
    );
    assert_eq!(codes("<odoo><record id=\"r\"/></odoo>"), vec![DiagnosticCode::OLS05014]);
    assert_eq!(
        codes("<odoo><record model=\"m\"><value/></record></odoo>"),
        vec![DiagnosticCode::OLS05015]
    );
}

#[test]
fn record_without_model_declares_nothing() {
    let loaded = load("<odoo><record id=\"r\"><field/></record></odoo>");
    assert_eq!(loaded.codes(), vec![DiagnosticCode::OLS05014]);
    assert!(loaded.ids_of("r").is_empty());
}

#[test]
fn field_needs_a_name_and_one_value() {
    assert_eq!(field_codes("", ""), vec![DiagnosticCode::OLS05016]);
    assert_eq!(field_codes("name=\"n\" ref=\"a\" eval=\"b\"", ""), vec![DiagnosticCode::OLS05017]);
    assert_eq!(field_codes("name=\"n\" type=\"int\" search=\"b\"", "1"), vec![DiagnosticCode::OLS05017]);
}

#[test]
fn field_numbers() {
    assert_eq!(field_codes("name=\"n\" type=\"int\"", "12"), vec![]);
    assert_eq!(field_codes("name=\"n\" type=\"int\"", "None"), vec![]);
    assert_eq!(field_codes("name=\"n\" type=\"int\"", "1.5"), vec![DiagnosticCode::OLS05018]);
    assert_eq!(field_codes("name=\"n\" type=\"int\"", ""), vec![DiagnosticCode::OLS05018]);
    assert_eq!(field_codes("name=\"n\" type=\"int\"", "2147483648"), vec![DiagnosticCode::OLS05018]);
    assert_eq!(field_codes("name=\"n\" type=\"float\"", "1.5e3"), vec![]);
    assert_eq!(field_codes("name=\"n\" type=\"float\"", "x"), vec![DiagnosticCode::OLS05019]);
}

#[test]
fn field_lists() {
    assert_eq!(field_codes("name=\"n\" type=\"list\"", "<value eval=\"1\"/>"), vec![]);
    assert_eq!(
        field_codes("name=\"n\" type=\"tuple\"", "<field name=\"x\"/>"),
        vec![DiagnosticCode::OLS05020]
    );
}

#[test]
fn field_files_and_texts() {
    assert_eq!(field_codes("name=\"n\" type=\"base64\" file=\"f\"", ""), vec![]);
    assert_eq!(
        field_codes("name=\"n\" type=\"char\" file=\"f\"", "x"),
        vec![DiagnosticCode::OLS05021]
    );
    assert_eq!(field_codes("name=\"n\" ref=\"a\"", "x"), vec![DiagnosticCode::OLS05022]);
    assert_eq!(field_codes("name=\"n\" eval=\"a\"", "x"), vec![DiagnosticCode::OLS05022]);
}

#[test]
fn field_attributes_belong_together() {
    assert_eq!(field_codes("name=\"n\" model=\"m\"", ""), vec![DiagnosticCode::OLS05023]);
    assert_eq!(field_codes("name=\"n\" model=\"m\" search=\"s\"", ""), vec![]);
    assert_eq!(field_codes("name=\"n\" use=\"u\" eval=\"e\"", ""), vec![DiagnosticCode::OLS05024]);
    assert_eq!(field_codes("name=\"n\" bad=\"u\"", ""), vec![DiagnosticCode::OLS05025]);
}

#[test]
fn field_children() {
    assert_eq!(field_codes("name=\"n\"", "<b/>"), vec![DiagnosticCode::OLS05026]);
    assert_eq!(field_codes("name=\"n\" type=\"xml\"", "<b/>"), vec![]);
    assert_eq!(field_codes("name=\"n\"", "<record id=\"q\" model=\"m\"/>"), vec![]);
}

#[test]
fn value_rules() {
    assert_eq!(value_codes("eval=\"e\" search=\"s\"", ""), vec![DiagnosticCode::OLS05027]);
    assert_eq!(value_codes("search=\"s\" eval=\"e\"", ""), vec![DiagnosticCode::OLS05028]);
    assert_eq!(value_codes("search=\"s\" type=\"char\"", ""), vec![DiagnosticCode::OLS05029]);
    assert_eq!(value_codes("file=\"f\"", "x"), vec![DiagnosticCode::OLS05030]);
    assert_eq!(value_codes("search=\"s\" file=\"f\"", ""), vec![DiagnosticCode::OLS05031]);
    assert_eq!(value_codes("bad=\"f\"", "x"), vec![DiagnosticCode::OLS05032]);
    assert_eq!(value_codes("type=\"char\"", ""), vec![DiagnosticCode::OLS05036]);
    assert_eq!(value_codes("name=\"n\"", ""), vec![DiagnosticCode::OLS05037]);
    assert_eq!(value_codes("name=\"n\" model=\"m\" use=\"u\"", "x"), vec![]);
}

#[test]
fn switched_off_conflict_lets_the_next_rule_speak() {
    let text = "<odoo><function model=\"m\" name=\"n\"><value search=\"s\" type=\"char\"/></function></odoo>";
    let loaded = load_with(text, vec![DiagnosticCode::OLS05029], EntryPointType::MAIN);
    assert_eq!(loaded.codes(), vec![DiagnosticCode::OLS05036]);
}

#[test]
fn function_rules() {
    assert_eq!(
        codes("<odoo><function eval=\"e\"/></odoo>"),
        vec![DiagnosticCode::OLS05044, DiagnosticCode::OLS05044]
    );
    assert_eq!(
        codes("<odoo><function model=\"m\" name=\"n\" eval=\"e\"><value eval=\"1\"/></function></odoo>"),
        vec![DiagnosticCode::OLS05045]
    );
    assert_eq!(
        codes("<odoo><function model=\"m\" name=\"n\" eval=\"e\" bad=\"1\"/></odoo>"),
        vec![DiagnosticCode::OLS05046]
    );
    assert_eq!(
        codes(
            "<odoo><function model=\"m\" name=\"n\" eval=\"e\">\
             <function model=\"m\" name=\"n\" eval=\"e\"/></function></odoo>"
        ),
        vec![DiagnosticCode::OLS05047]
    );
    assert_eq!(
        codes("<odoo><function model=\"m\" name=\"n\" eval=\"e\"><b/></function></odoo>"),
        vec![DiagnosticCode::OLS05048]
    );
    assert_eq!(
        codes("<odoo><function model=\"m\" name=\"n\"/></odoo>"),
        vec![DiagnosticCode::OLS05038]
    );
}

#[test]
fn delete_rules() {
    assert_eq!(codes("<odoo><delete id=\"d\"/></odoo>"), vec![DiagnosticCode::OLS05033]);
    assert_eq!(
        codes("<odoo><delete id=\"d\" search=\"s\" model=\"m\"/></odoo>"),
        vec![DiagnosticCode::OLS05034]
    );
    assert_eq!(codes("<odoo><delete model=\"m\"/></odoo>"), vec![DiagnosticCode::OLS05035]);
    assert_eq!(codes("<odoo><delete model=\"m\" search=\"s\"/></odoo>"), vec![]);
}

#[test]
fn declarations_are_found() {
    let loaded = load(
        "<odoo><record id=\"r\" model=\"m\"><field name=\"f\"><record id=\"inner\" model=\"n\"/></field></record>\
         <data><menuitem id=\"base.menu\"><menuitem id=\"sub\"/></menuitem></data>\
         <template id=\"t\"/><delete id=\"d\" model=\"m\"/></odoo>",
    );
    assert!(loaded.diagnostics.is_empty());
    for id in ["r", "inner", "menu", "base.menu", "sub", "t", "d", "base.r"] {
        assert_eq!(loaded.ids_of(id).len(), 1, "{}", id);
    }
    assert!(matches!(loaded.ids_of("r")[0], OdooData::RECORD(_)));
    assert!(matches!(loaded.ids_of("menu")[0], OdooData::MENUITEM(_)));
    assert!(matches!(loaded.ids_of("t")[0], OdooData::TEMPLATE(_)));
    assert!(matches!(loaded.ids_of("d")[0], OdooData::DELETE(_)));
    assert_eq!(loaded.ids_of("r")[0].get_file_symbol(), Some(loaded.file));
    assert_eq!(
        loaded.ids_of("r")[0].get_xml_file_symbol(&loaded.session.sync_odoo),
        Some(loaded.file)
    );
}

#[test]
fn declarations_go_to_the_module_that_their_id_names() {
    let loaded = load(
        "<odoo><record id=\"sale.r\" model=\"m\"/><record id=\"unknown.q\" model=\"m\"/></odoo>",
    );
    assert!(loaded.diagnostics.is_empty());
    assert_eq!(loaded.ids_of("sale.r").len(), 1);
    assert_eq!(loaded.ids_of("r").len(), 0);
    assert_eq!(loaded.ids_of("unknown.q").len(), 0);
    assert_eq!(loaded.ids_of("q").len(), 1);
    let odoo = &loaded.session.sync_odoo;
    let located = |module: SymbolId, key: &str| match &odoo.get(module).unwrap().data {
        SymbolData::Module(m) => match m.xml_id_locations.get(key) {
            Some(set) => odoo.members_of(set),
            None => vec![],
        },
        _ => vec![],
    };
    assert_eq!(located(loaded.sale, "r"), vec![loaded.file]);
    assert_eq!(located(loaded.base, "r"), vec![]);
    assert_eq!(located(loaded.base, "q"), vec![loaded.file]);
}

#[test]
fn ids_with_two_dots_are_refused() {
    let loaded = load("<odoo><record id=\"a.b.c\" model=\"m\"/></odoo>");
    assert_eq!(loaded.codes(), vec![DiagnosticCode::OLS05051]);
    assert_eq!(loaded.diagnostics[0].args, vec!["a.b.c"]);
    assert!(loaded.ids_of("c").is_empty());
}

#[test]
fn files_outside_the_project_declare_nothing() {
    let text = "<odoo><record id=\"r\" model=\"m\"/><record id=\"a.b.c\" model=\"m\"/></odoo>";
    let loaded = load_with(text, vec![], EntryPointType::PUBLIC);
    assert!(loaded.diagnostics.is_empty());
    assert!(loaded.ids_of("r").is_empty());
    let addon = load_with(text, vec![], EntryPointType::ADDON);
    assert_eq!(addon.ids_of("r").len(), 1);
    assert_eq!(addon.codes(), vec![DiagnosticCode::OLS05051]);
}

#[test]
fn switched_off_codes_stay_silent() {
    let text = "<odoo bad=\"1\"><record id=\"r\"/></odoo>";
    let loaded = load_with(text, vec![DiagnosticCode::OLS05014], EntryPointType::MAIN);
    assert_eq!(loaded.codes(), vec![DiagnosticCode::OLS05004]);
}

#[test]
fn loading_twice_keeps_the_first_declarations() {
    let mut loaded = load("<odoo><record id=\"r\" model=\"m\"/></odoo>");
    let root = parse_xml("<odoo><record id=\"r\" model=\"n\"/></odoo>").unwrap();
    let mut builder = XmlArchBuilder::new(loaded.file);
    let mut info = FileInfo::new(String::from("u"));
    builder.load_arch(&mut loaded.session, &mut info, &root);
    let models: Vec<String> = loaded
        .ids_of("r")
        .iter()
        .map(|d| match d {
            OdooData::RECORD(r) => r.model.0.clone(),
            _ => String::new(),
        })
        .collect();
    assert_eq!(models, vec!["m", "n"]);
}

#[test]
fn record_keeps_model_fields_and_ranges() {
    let text = "<odoo><record id=\"r\" model=\"m\"><field name=\"f\" ref=\"a.b\"/><field name=\"g\">t<!--c-->u</field><field/></record></odoo>";
    let loaded = load(text);
    assert_eq!(loaded.codes(), vec![DiagnosticCode::OLS05016]);
    let found = loaded.ids_of("r");
    let record = match found[0] {
        OdooData::RECORD(record) => record,
        _ => panic!("not a record"),
    };
    assert_eq!(record.xml_id.as_deref(), Some("r"));
    assert_eq!(record.model.0, "m");
    assert_eq!(&text[record.model.1.clone()], "m");
    assert_eq!(record.fields.len(), 2);
    let first = &record.fields[0];
    assert_eq!(first.name, "f");
    assert_eq!(&text[first.range.clone()], "<field name=\"f\" ref=\"a.b\"/>");
    assert_eq!(first.text, None);
    assert_eq!(first.text_range, None);
    let (key, range) = first.ref_key.as_ref().unwrap();
    assert_eq!(key, "a.b");
    assert_eq!(&text[range.clone()], "ref=\"a.b\"");
    let second = &record.fields[1];
    assert_eq!(second.text.as_deref(), Some("u"));
    assert_eq!(&text[second.text_range.clone().unwrap()], "u");
    assert_eq!(found[0].get_range(), record.range);
}

#[test]
fn attributes_are_found_under_any_prefix() {
    let loaded = load(
        "<odoo xmlns:x=\"u\"><record id=\"r\" x:model=\"m\" model=\"n\"><field x:name=\"f\"/></record></odoo>",
    );
    assert_eq!(loaded.codes(), vec![]);
    match loaded.ids_of("r")[0] {
        OdooData::RECORD(record) => {
            assert_eq!(record.model.0, "m");
            assert_eq!(record.fields[0].name, "f");
        }
        _ => panic!("not a record"),
    }
    let inside = "<odoo xmlns:x=\"u\"><template id=\"t\"><record x:model=\"m\"/></template></odoo>";
    assert_eq!(codes(inside), vec![]);
}

#[test]
fn parsing_builds_the_tree() {
    let text = "<odoo><!--c--><a x=\"1\" xmlns:p=\"u\" p:y=\"&lt;2\">t&amp;u<b/></a><?pi d?><c/></odoo>";
    let root = parse_xml(text).unwrap();
    assert_eq!(root.kind, NodeKind::Element);
    assert_eq!(root.tag, "odoo");
    assert_eq!(root.range, 0..text.len());
    let kinds: Vec<NodeKind> = root.children.iter().map(|c| c.kind).collect();
    assert_eq!(
        kinds,
        vec![NodeKind::Comment, NodeKind::Element, NodeKind::Instruction, NodeKind::Element]
    );
    assert_eq!(root.children[0].content, "c");
    assert_eq!(root.children[2].content, "");
    let a = &root.children[1];
    assert_eq!(a.attributes.len(), 2);
    assert_eq!(a.attributes[0].name, "x");
    assert_eq!(a.attributes[1].name, "y");
    assert_eq!(a.attributes[1].value, "<2");
    assert_eq!(&text[a.attributes[0].range.clone()], "x=\"1\"");
    assert_eq!(a.content, "");
    assert_eq!(a.children.len(), 2);
    assert_eq!(a.children[0].content, "t&u");
    assert_eq!(a.children[1].tag, "b");
    assert_eq!(a.get_text(), Some("t&u"));
    assert_eq!(root.children[3].tag, "c");
    assert!(root.children[3].children.is_empty());
}

#[test]
fn parsing_refuses_what_is_no_document() {
    assert!(parse_xml("<a><b></a>").is_none());
    assert!(parse_xml("").is_none());
    assert!(parse_xml("text").is_none());
}

#[test]
fn parsing_starts_at_the_root_element() {
    let root = parse_xml("<!--a--><odoo><b><c/></b><d/></odoo><!--e-->").unwrap();
    assert_eq!(root.tag, "odoo");
    let tags: Vec<&str> = root.children.iter().map(|c| c.tag.as_str()).collect();
    assert_eq!(tags, vec!["b", "d"]);
    assert_eq!(root.children[0].children.len(), 1);
    assert_eq!(root.children[0].children[0].tag, "c");
}

fn flat(depth: usize, tag: &str) -> FlatNode {
    FlatNode {
        depth,
        kind: NodeKind::Element,
        tag: String::from(tag),
        attributes: vec![],
        content: Some(String::from("text below")),
        range: 0..1,
    }
}

#[test]
fn trees_are_built_from_depths() {
    let nodes = vec![flat(2, "a"), flat(3, "b"), flat(4, "c"), flat(4, "d"), flat(3, "e")];
    let tree = build_tree(nodes);
    assert_eq!(tree.tag, "a");
    assert_eq!(tree.content, "");
    assert_eq!(tree.children.len(), 2);
    assert_eq!(tree.children[0].tag, "b");
    let below: Vec<&str> = tree.children[0].children.iter().map(|c| c.tag.as_str()).collect();
    assert_eq!(below, vec!["c", "d"]);
    assert_eq!(tree.children[1].tag, "e");
    assert_eq!(build_tree(vec![flat(0, "x")]).children.len(), 0);
}

#[test]
fn declarations_keep_all_but_the_file_they_are_recorded_for() {
    let loaded = load("<odoo><delete id=\"d\" model=\"m\"/></odoo>");
    let range = loaded.ids_of("d")[0].get_range();
    let mut data = OdooData::DELETE(XmlDataDelete {
        file_symbol: 90,
        xml_id: Some(String::from("d")),
        range: range.clone(),
        model: String::from("m"),
    });
    assert_eq!(data.get_file_symbol(), Some(90));
    assert_eq!(data.get_xml_file_symbol(&loaded.session.sync_odoo), None);
    data.set_file_symbol(loaded.file);
    assert_eq!(data.get_file_symbol(), Some(loaded.file));
    assert_eq!(data.get_xml_file_symbol(&loaded.session.sync_odoo), Some(loaded.file));
    assert_eq!(data.get_range(), range);
    data.set_file_symbol(loaded.base);
    assert_eq!(data.get_xml_file_symbol(&loaded.session.sync_odoo), None);
}
