use odoo_ls_core::constants::{BuildStatus, BuildSteps, SymType, SymbolId};
use odoo_ls_core::evaluation::{ContextValue, Evaluation, EvaluationSymbol, TextRange};
use odoo_ls_core::function_symbol::{Argument, ArgumentType, CallArguments, FunctionSymbol};
use odoo_ls_core::handles::ExtDeclaration;
use odoo_ls_core::model::ModelData;
use odoo_ls_core::odoo::{SessionInfo, SyncOdoo, Version};
use odoo_ls_core::symbols::{ClassSymbol, FileSymbol, ModuleSymbol, SymbolData};
use odoo_ls_core::variable_symbol::VariableSymbol;

const RANGE: TextRange = TextRange { start: 10, end: 90 };

fn odoo() -> SyncOdoo {
    SyncOdoo::new(Version { major: 18, minor: 0, patch: 0 })
}

fn function() -> FunctionSymbol {
    FunctionSymbol::new(String::from("compute"), RANGE, 25, true)
}

fn variable(odoo: &mut SyncOdoo, name: &str) -> SymbolId {
    let variable = VariableSymbol::new(String::from(name), RANGE, false);
    odoo.add_symbol(String::from(name), SymbolData::Variable(variable))
}

fn argument(symbol: SymbolId, arg_type: ArgumentType) -> Argument {
    Argument { symbol, default_value: None, arg_type, annotation: None }
}

fn call(positional: u32, keywords: Vec<&str>) -> CallArguments {
    CallArguments {
        positional,
        keywords: keywords.into_iter().map(|k| Some(String::from(k))).collect(),
    }
}

#[test]
fn new_function_is_to_be_built() {
    let f = function();
    assert_eq!(f.name, "compute");
    assert!(f.is_external);
    assert!(!f.is_static && !f.is_property && !f.is_overloaded && !f.is_class_method);
    assert_eq!(f.range, RANGE);
    assert_eq!(f.body_range, TextRange { start: 25, end: 90 });
    assert_eq!(f.arch_status, BuildStatus::PENDING);
    assert_eq!(f.arch_eval_status, BuildStatus::PENDING);
    assert_eq!(f.validation_status, BuildStatus::PENDING);
    assert_eq!(f.sections.len(), 1);
    assert_eq!(f.sections[0].start, 0);
    assert_eq!(f.sections[0].index, 0);
    assert_eq!(f.sections[0].previous, None);
    assert!(f.args.is_empty() && f.evaluations.is_empty());
}

#[test]
fn constructors_are_static() {
    assert!(FunctionSymbol::new(String::from("__new__"), RANGE, 25, false).is_static);
    assert!(!function().is_static);
}

#[test]
fn function_diagnostics_are_kept_by_step() {
    let mut f = function();
    f.replace_diagnostics(BuildSteps::VALIDATION, vec![]);
    assert!(f.diagnostics.validation.is_some());
    assert!(f.diagnostics.arch.is_none());
}

#[test]
fn function_symbols_are_kept_by_name_and_section() {
    let mut f = function();
    f.add_symbol(3, "x", 0);
    f.add_symbol(4, "x", 1);
    f.add_symbol(5, "x", 0);
    f.add_symbol(6, "y", 0);
    let sections = f.symbols.get("x").unwrap();
    assert_eq!(sections[0].section, 0);
    assert_eq!(sections[0].symbols, vec![3, 5]);
    assert_eq!(sections[1].symbols, vec![4]);
    assert_eq!(f.symbols.get("y").unwrap()[0].symbols, vec![6]);
}

#[test]
fn return_evaluations_are_not_repeated() {
    let mut odoo = odoo();
    let id = odoo.add_symbol(String::from("f"), SymbolData::Function(function()));
    let mut session = SessionInfo::new(odoo, vec![]);
    let first = vec![
        vec![Evaluation::eval_from_symbol(1, None), Evaluation::eval_from_symbol(2, None)],
        vec![Evaluation::eval_from_symbol(1, None)],
    ];
    FunctionSymbol::add_return_evaluations(id, &mut session, first);
    let more = vec![vec![
        Evaluation::eval_from_symbol(2, None),
        Evaluation::eval_from_symbol(2, Some(true)),
    ]];
    FunctionSymbol::add_return_evaluations(id, &mut session, more);
    let targets: Vec<(Option<SymbolId>, Option<bool>)> =
        match &session.sync_odoo.get(id).unwrap().data {
            SymbolData::Function(f) => {
                f.evaluations.iter().map(|e| (e.symbol.target, e.symbol.instance)).collect()
            }
            _ => vec![],
        };
    assert_eq!(targets, vec![(Some(1), None), (Some(2), None), (Some(2), Some(true))]);
}

#[test]
fn methods_need_a_positional_argument() {
    let mut f = function();
    assert!(!f.can_be_in_class());
    f.args.push(argument(0, ArgumentType::KWARG));
    f.args.push(argument(0, ArgumentType::KWORD_ONLY));
    assert!(!f.can_be_in_class());
    f.args.push(argument(0, ArgumentType::VARARG));
    assert!(f.can_be_in_class());
    for typ in [ArgumentType::ARG, ArgumentType::POS_ONLY] {
        let mut f = function();
        f.args.push(argument(0, typ));
        assert!(f.can_be_in_class());
    }
}

#[test]
fn overloads_reach_later_implementations() {
    let mut odoo = odoo();
    let mut overload = function();
    overload.is_overloaded = true;
    let parent = odoo.add_symbol(String::from("C"), SymbolData::Class(ClassSymbol::new(None)));
    let plain = odoo.add_symbol(String::from("f"), SymbolData::Function(function()));
    let first = odoo.add_symbol(String::from("f"), SymbolData::Function(overload));
    let mut f = function();
    assert!(!f.is_overloaded(&odoo, &vec![plain, first]));
    f.parent = Some(parent);
    assert!(f.is_overloaded(&odoo, &vec![plain, first]));
    assert!(f.is_overloaded(&odoo, &vec![first, plain]));
    assert!(f.is_overloaded(&odoo, &vec![first]));
    assert!(!f.is_overloaded(&odoo, &vec![plain, parent]));
    assert!(!f.is_overloaded(&odoo, &vec![]));
    odoo.drop_symbol(parent);
    assert!(!f.is_overloaded(&odoo, &vec![plain, first]));
    f.is_overloaded = true;
    assert!(f.is_overloaded(&odoo, &vec![]));
}

#[test]
fn return_types_are_not_refined_by_context() {
    assert_eq!(function().get_return_type(None).len(), 0);
}

#[test]
fn call_arguments_find_their_parameter() {
    let mut odoo = odoo();
    let a = variable(&mut odoo, "a");
    let b = variable(&mut odoo, "b");
    let mut f = function();
    let second = variable(&mut odoo, "second");
    f.args.push(argument(a, ArgumentType::ARG));
    f.args.push(argument(second, ArgumentType::POS_ONLY));
    f.args.push(argument(b, ArgumentType::KWORD_ONLY));
    let found = |call: &CallArguments, index: u32, instance: Option<bool>| {
        f.get_indexed_arg_in_call(&odoo, &vec![], call, index, instance).map(|arg| arg.symbol)
    };
    let c = call(1, vec!["b", "nope"]);
    assert_eq!(found(&c, 0, None), Some(a));
    assert_eq!(found(&c, 0, Some(true)), Some(second));
    assert_eq!(found(&c, 0, Some(false)), Some(second));
    assert_eq!(found(&c, 1, None), Some(b));
    assert_eq!(found(&c, 2, None), None);
    let c = call(4, vec![]);
    assert_eq!(found(&c, 1, None), Some(second));
    assert_eq!(found(&c, 1, Some(true)), None);
    assert_eq!(found(&c, 2, None), None);
    assert_eq!(found(&c, 3, None), None);
    let c = call(0, vec!["b", "nope"]);
    assert_eq!(found(&c, 0, None), Some(b));
    assert_eq!(found(&c, 0, Some(true)), Some(b));
    assert_eq!(found(&c, 1, None), None);
    let rest = variable(&mut odoo, "rest");
    let kwargs = variable(&mut odoo, "kwargs");
    let mut f = function();
    f.args.push(argument(a, ArgumentType::ARG));
    f.args.push(argument(rest, ArgumentType::VARARG));
    f.args.push(argument(b, ArgumentType::KWORD_ONLY));
    f.args.push(argument(kwargs, ArgumentType::KWARG));
    let found = |call: &CallArguments, index: u32, instance: Option<bool>| {
        f.get_indexed_arg_in_call(&odoo, &vec![], call, index, instance).map(|arg| arg.symbol)
    };
    let c = call(3, vec!["b"]);
    assert_eq!(found(&c, 0, None), Some(a));
    assert_eq!(found(&c, 0, Some(true)), Some(rest));
    assert_eq!(found(&c, 1, None), Some(rest));
    assert_eq!(found(&c, 2, None), Some(rest));
    assert_eq!(found(&c, 2, Some(true)), Some(rest));
    assert_eq!(found(&c, 3, None), Some(b));
    let mut overloaded = function();
    overloaded.is_overloaded = true;
    assert!(overloaded.get_indexed_arg_in_call(&odoo, &vec![], &c, 0, None).is_none());
}

#[test]
fn declarations_on_functions_are_found_through_their_owners() {
    let mut odoo = odoo();
    let target = odoo.add_symbol(String::from("t"), SymbolData::Function(function()));
    let owner = odoo.add_symbol(String::from("o"), SymbolData::Function(function()));
    let other = odoo.add_symbol(String::from("file"), SymbolData::File(FileSymbol::new()));
    let mut declaring = function();
    declaring.set_decl_ext_symbols(
        odoo.get(target).unwrap(),
        vec![
            ExtDeclaration { name: String::from("x"), section: 0, symbols: vec![7, 8] },
            ExtDeclaration { name: String::from("y"), section: 0, symbols: vec![9] },
            ExtDeclaration { name: String::from("x"), section: 2, symbols: vec![6] },
        ],
    );
    assert_eq!(declaring.get_decl_ext_symbol(odoo.get(target).unwrap(), "x"), vec![7, 8, 6]);
    assert_eq!(declaring.get_decl_ext_symbol(odoo.get(target).unwrap(), "z"), vec![]);
    assert_eq!(declaring.get_decl_ext_symbol(odoo.get(other).unwrap(), "x"), vec![]);
    odoo.symbols[owner].as_mut().unwrap().data = SymbolData::Function(declaring);
    let mut f = function();
    f.weak_self = Some(target);
    assert_eq!(f.get_ext_symbol(&odoo, "x"), vec![]);
    f.add_ext_owner("x", odoo.get(owner).unwrap());
    f.add_ext_owner("x", odoo.get(other).unwrap());
    assert_eq!(f.get_ext_symbol(&odoo, "x"), vec![7, 8, 6]);
    assert_eq!(f.get_ext_symbol(&odoo, "y"), vec![]);
    odoo.drop_symbol(owner);
    assert_eq!(f.get_ext_symbol(&odoo, "x"), vec![]);
}

#[test]
fn statuses_are_set_where_a_symbol_has_them() {
    let mut odoo = odoo();
    let f = odoo.add_symbol(String::from("f"), SymbolData::Function(function()));
    let c = odoo.add_symbol(String::from("c"), SymbolData::Class(ClassSymbol::new(None)));
    odoo.set_build_status(f, BuildSteps::ARCH, BuildStatus::DONE);
    odoo.set_build_status(c, BuildSteps::ARCH, BuildStatus::DONE);
    match &odoo.get(f).unwrap().data {
        SymbolData::Function(f) => {
            assert_eq!(f.arch_status, BuildStatus::DONE);
            assert_eq!(f.arch_eval_status, BuildStatus::PENDING);
        }
        _ => panic!("not a function"),
    }
    assert_eq!(odoo.get(c).unwrap().get_type(), SymType::CLASS);
    assert_eq!(odoo.get(f).unwrap().get_type(), SymType::FUNCTION);
}

#[test]
fn dropped_symbols_leave_their_position() {
    let mut odoo = odoo();
    let a = variable(&mut odoo, "a");
    odoo.drop_symbol(a);
    assert!(odoo.get(a).is_none());
    let b = variable(&mut odoo, "b");
    assert_eq!((a, b), (0, 1));
    assert!(odoo.get(7).is_none());
}

#[test]
fn waiting_symbols_are_forgotten_when_dropped() {
    let mut odoo = odoo();
    let a = variable(&mut odoo, "a");
    let b = variable(&mut odoo, "b");
    odoo.add_to_validations(b);
    odoo.add_to_validations(a);
    odoo.add_to_validations(b);
    assert_eq!(odoo.members_of(&odoo.rebuild_validation), vec![a, b]);
    odoo.drop_symbol(a);
    assert_eq!(odoo.members_of(&odoo.rebuild_validation), vec![b]);
}

#[test]
fn new_variable_is_plain() {
    let v = VariableSymbol::new(String::from("x"), RANGE, true);
    assert_eq!(v.name, "x");
    assert!(v.is_external && !v.is_import_variable && !v.is_parameter);
    assert!(v.evaluations.is_empty() && v.parent.is_none());
    assert_eq!(v.range, RANGE);
    assert!(v.follow_context().is_none());
}

#[test]
fn type_aliases() {
    let mut v = VariableSymbol::new(String::from("x"), RANGE, false);
    assert!(!v.is_type_alias());
    v.evaluations.push(Evaluation::eval_from_symbol(0, Some(false)));
    assert!(v.is_type_alias());
    v.is_import_variable = true;
    assert!(!v.is_type_alias());
    v.is_import_variable = false;
    v.evaluations.push(Evaluation::eval_from_symbol(0, None));
    assert!(!v.is_type_alias());
}

#[test]
fn values() {
    let mut v = VariableSymbol::new(String::from("x"), RANGE, false);
    assert!(v.is_value());
    let mut eval = Evaluation::eval_from_symbol(0, None);
    eval.value = Some(String::from("1"));
    v.evaluations.push(eval);
    assert!(v.is_value());
    v.evaluations.push(Evaluation::eval_from_symbol(0, None));
    assert!(!v.is_value());
}

#[test]
fn parents_are_the_base_of_attributes() {
    let mut v = VariableSymbol::new(String::from("x"), RANGE, false);
    v.parent = Some(4);
    let context = v.follow_context().unwrap();
    assert!(matches!(context.get("base_attr"), Some(ContextValue::SYMBOL(4))));
    assert_eq!(context.entries.len(), 1);
}

#[test]
fn relational_models() {
    let mut odoo = odoo();
    let base = odoo.add_symbol(
        String::from("base"),
        SymbolData::Module(ModuleSymbol::new(String::from("base"), vec![])),
    );
    let mut data = ModelData::new();
    data.name = String::from("res.partner");
    let partner =
        odoo.add_symbol(String::from("Partner"), SymbolData::Class(ClassSymbol::new(Some(data))));
    odoo.place_symbol(partner, Some(base), None, None);
    odoo.add_model(String::from("res.partner"), partner);
    let many2one =
        odoo.add_symbol(String::from("Many2one"), SymbolData::Class(ClassSymbol::new(None)));
    let plain = odoo.add_symbol(String::from("Plain"), SymbolData::Class(ClassSymbol::new(None)));
    let function = odoo.add_symbol(String::from("f"), SymbolData::Function(function()));
    let session = SessionInfo::new(odoo, vec![]);
    let reference = |target: Option<SymbolId>, comodel: Option<&str>| {
        let mut symbol = match Evaluation::eval_from_symbol(0, None) {
            Evaluation { symbol, .. } => symbol,
        };
        symbol.target = target;
        if let Some(name) = comodel {
            symbol.context.entry("comodel_name", ContextValue::STRING(String::from(name)));
        }
        symbol
    };
    let model_of = |own: EvaluationSymbol, references: Vec<EvaluationSymbol>| {
        let mut v = VariableSymbol::new(String::from("x"), RANGE, false);
        let mut eval = Evaluation::eval_from_symbol(0, None);
        eval.symbol = own;
        v.evaluations.push(eval);
        v.get_relational_model(&session, &vec![references], Some(base))
    };
    let field = || reference(Some(many2one), None);
    let named = |name: &str| reference(Some(many2one), Some(name));
    let class = || reference(Some(plain), None);
    let other = || reference(Some(function), None);
    assert_eq!(model_of(named("res.partner"), vec![]), vec![partner]);
    assert_eq!(model_of(named("res.partner"), vec![class()]), vec![partner]);
    assert_eq!(model_of(field(), vec![named("res.partner")]), vec![partner]);
    assert_eq!(model_of(field(), vec![named("no.model")]), vec![]);
    assert_eq!(model_of(field(), vec![field()]), vec![]);
    assert_eq!(model_of(field(), vec![class()]), vec![plain]);
    assert_eq!(model_of(field(), vec![other(), reference(None, None), class()]), vec![plain]);
    assert_eq!(model_of(other(), vec![named("res.partner")]), vec![partner]);
    assert_eq!(model_of(class(), vec![class()]), vec![]);
    assert_eq!(model_of(other(), vec![class()]), vec![]);
    assert_eq!(model_of(class(), vec![named("res.partner")]), vec![]);
    assert_eq!(model_of(reference(None, None), vec![]), vec![]);
}

#[test]
fn evaluations_are_added_once() {
    let mut session = SessionInfo::new(odoo(), vec![]);
    let mut f = function();
    f.evaluations.push(Evaluation::eval_from_symbol(1, None));
    f.evaluations.push(Evaluation::eval_from_symbol(1, None));
    let id = session.sync_odoo.add_symbol(String::from("f"), SymbolData::Function(f));
    for _ in 0..2 {
        let more = vec![vec![
            Evaluation::eval_from_symbol(1, None),
            Evaluation::eval_from_symbol(2, None),
        ]];
        FunctionSymbol::add_return_evaluations(id, &mut session, more);
        let targets: Vec<Option<SymbolId>> = match &session.sync_odoo.get(id).unwrap().data {
            SymbolData::Function(f) => f.evaluations.iter().map(|e| e.symbol.target).collect(),
            _ => vec![],
        };
        assert_eq!(targets, vec![Some(1), Some(1), Some(2)]);
    }
}

#[test]
fn evaluations_compare_by_what_they_say() {
    let mut a = Evaluation::eval_from_symbol(1, None);
    let mut b = Evaluation::eval_from_symbol(1, None);
    assert!(a.same(&b));
    a.symbol.context.entry("x", ContextValue::RANGE(RANGE));
    assert!(!a.same(&b));
    b.symbol.context.entry("x", ContextValue::RANGE(RANGE));
    assert!(a.same(&b));
    b.value = Some(String::from("1"));
    assert!(!a.same(&b));
}
