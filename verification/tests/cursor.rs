use odoo_ls_core::ast_nodes::{AstNode, ExprFinderVisitor, ExprOrIdent, Identifier, ImportStmt, NodeDetail};
use odoo_ls_core::ast_utils::{AnalyzeAstResult, AstUtils, DottedExpr, ImportResult, SymbolStep};
use odoo_ls_core::constants::{BuildStatus, BuildSteps, SymbolId};
use odoo_ls_core::evaluation::{ContextValue, Evaluation, TextRange};
use odoo_ls_core::function_symbol::FunctionSymbol;
use odoo_ls_core::hover::{HoverFeature, XmlAstResult};
use odoo_ls_core::import_query::{import_query, is_queryable, Resolver};
use odoo_ls_core::odoo::{SyncOdoo, Version};
use odoo_ls_core::symbols::{FileSymbol, ModuleSymbol, SymbolData};

fn range(start: u32, end: u32) -> TextRange {
    TextRange { start, end }
}

fn ident(id: &str, start: u32) -> Identifier {
    Identifier { id: String::from(id), range: range(start, start + id.len() as u32) }
}

fn node(id: u32, start: u32, end: u32, detail: NodeDetail, children: Vec<AstNode>) -> AstNode {
    AstNode { id, range: range(start, end), detail, children }
}

fn expr(id: u32, start: u32, end: u32, children: Vec<AstNode>) -> AstNode {
    node(id, start, end, NodeDetail::Expr { arguments: None }, children)
}

fn call(id: u32, start: u32, end: u32, arguments: TextRange, children: Vec<AstNode>) -> AstNode {
    node(id, start, end, NodeDetail::Expr { arguments: Some(arguments) }, children)
}

fn stmt(start: u32, end: u32, idents: Vec<Identifier>, children: Vec<AstNode>) -> AstNode {
    node(0, start, end, NodeDetail::Stmt { idents, import: ImportStmt::NoImport }, children)
}

fn alias(start: u32, end: u32, name: Identifier, asname: Option<Identifier>) -> AstNode {
    node(0, start, end, NodeDetail::Alias { name, asname }, vec![])
}

fn import(start: u32, end: u32, names: Vec<AstNode>) -> AstNode {
    node(0, start, end, NodeDetail::Stmt { idents: vec![], import: ImportStmt::Import }, names)
}

fn import_from(start: u32, end: u32, module: Option<Identifier>, names: Vec<AstNode>) -> AstNode {
    let import = ImportStmt::ImportFrom(module);
    node(0, start, end, NodeDetail::Stmt { idents: vec![], import }, names)
}

fn found(stmt: &AstNode, offset: u32) -> (String, Option<u32>) {
    let (found, call) = ExprFinderVisitor::find_expr_at(stmt, offset);
    let text = match found {
        Some(ExprOrIdent::Expr(node)) => format!("expr {}", node.id),
        Some(ExprOrIdent::Ident(ident)) => format!("ident {}", ident.id),
        Some(ExprOrIdent::Parameter(node)) => format!("parameter {}", node.id),
        None => String::from("nothing"),
    };
    (text, call.map(|c| c.id))
}

fn text_of(stmt: &AstNode, offset: u32) -> String {
    found(stmt, offset).0
}

// `f(g(a), b)`
fn nested_calls() -> AstNode {
    let inner = call(3, 2, 6, range(3, 6), vec![expr(4, 2, 3, vec![]), expr(5, 4, 5, vec![])]);
    let outer = call(
        1,
        0,
        10,
        range(1, 10),
        vec![expr(2, 0, 1, vec![]), inner, expr(6, 8, 9, vec![])],
    );
    stmt(0, 10, vec![], vec![outer])
}

#[test]
fn innermost_expression_is_found() {
    let s = nested_calls();
    assert_eq!(found(&s, 0), (String::from("expr 2"), None));
    assert_eq!(found(&s, 1), (String::from("expr 1"), Some(1)));
    assert_eq!(found(&s, 2), (String::from("expr 4"), Some(1)));
    assert_eq!(found(&s, 3), (String::from("expr 3"), Some(3)));
    assert_eq!(found(&s, 4), (String::from("expr 5"), Some(3)));
    assert_eq!(found(&s, 8), (String::from("expr 6"), Some(1)));
    assert_eq!(found(&s, 10), (String::from("nothing"), None));
}

#[test]
fn names_of_statements_are_found() {
    let s = stmt(0, 20, vec![ident("one", 4), ident("two", 9)], vec![expr(1, 14, 18, vec![])]);
    assert_eq!(text_of(&s, 4), "ident one");
    assert_eq!(text_of(&s, 11), "ident two");
    assert_eq!(text_of(&s, 14), "expr 1");
    assert_eq!(text_of(&s, 19), "nothing");
}

#[test]
fn names_of_imports_are_found() {
    let s = import_from(
        0,
        30,
        Some(ident("mod", 5)),
        vec![alias(16, 24, ident("foo", 16), Some(ident("f", 23)))],
    );
    assert_eq!(text_of(&s, 16), "ident foo");
    assert_eq!(text_of(&s, 23), "ident f");
    assert_eq!(text_of(&s, 20), "nothing");
}

#[test]
fn names_of_handlers_keywords_and_parameters_are_found() {
    let handler = node(
        1,
        0,
        10,
        NodeDetail::ExceptHandler { bound: Some(ident("e", 9)) },
        vec![expr(2, 7, 8, vec![])],
    );
    let s = stmt(0, 10, vec![], vec![handler]);
    assert_eq!(text_of(&s, 7), "expr 2");
    assert_eq!(text_of(&s, 9), "ident e");
    let keyword =
        node(1, 2, 7, NodeDetail::Keyword { arg: Some(ident("key", 2)) }, vec![expr(2, 6, 7, vec![])]);
    let s = stmt(0, 10, vec![], vec![keyword]);
    assert_eq!(text_of(&s, 2), "ident key");
    assert_eq!(text_of(&s, 6), "expr 2");
    let parameter =
        node(7, 2, 9, NodeDetail::Parameter { name: ident("arg", 2) }, vec![expr(8, 6, 9, vec![])]);
    let s = stmt(0, 10, vec![], vec![parameter]);
    assert_eq!(text_of(&s, 3), "parameter 7");
    assert_eq!(text_of(&s, 6), "expr 8");
    assert_eq!(text_of(&s, 5), "nothing");
}

#[test]
fn names_of_patterns_and_generics_are_found() {
    let keyword =
        node(1, 2, 6, NodeDetail::PatternKeyword { attr: ident("x", 2) }, vec![expr(2, 4, 5, vec![])]);
    let s = stmt(0, 10, vec![], vec![keyword]);
    assert_eq!(text_of(&s, 2), "ident x");
    assert_eq!(text_of(&s, 4), "expr 2");
    let generic =
        node(1, 2, 8, NodeDetail::TypeParam { name: ident("T", 2) }, vec![expr(2, 2, 8, vec![])]);
    let s = stmt(0, 10, vec![], vec![generic]);
    assert_eq!(text_of(&s, 2), "ident T");
    assert_eq!(text_of(&s, 5), "expr 2");
    let pattern = node(
        1,
        2,
        8,
        NodeDetail::Pattern { bound: Some(ident("x", 7)) },
        vec![expr(2, 2, 8, vec![])],
    );
    let s = stmt(0, 10, vec![], vec![pattern]);
    assert_eq!(text_of(&s, 7), "ident x");
    assert_eq!(text_of(&s, 3), "expr 2");
}

#[test]
fn patterns_elsewhere_are_skipped() {
    let pattern =
        node(1, 2, 4, NodeDetail::Pattern { bound: None }, vec![expr(2, 5, 8, vec![])]);
    let s = stmt(0, 10, vec![], vec![pattern]);
    assert_eq!(text_of(&s, 6), "nothing");
}

#[test]
fn first_found_stays() {
    let s = stmt(0, 10, vec![ident("n", 3)], vec![expr(1, 2, 5, vec![]), expr(2, 2, 5, vec![])]);
    assert_eq!(text_of(&s, 3), "expr 1");
}

// `import a.bé.c as d`
fn dotted_import() -> AstNode {
    import(0, 19, vec![alias(7, 19, ident("a.bé.c", 7), Some(ident("d", 18)))])
}

#[test]
fn import_parts_are_modules_up_to_the_last() {
    let s = dotted_import();
    assert!(is_queryable(&s, 9));
    let query = import_query(&s, 7).unwrap();
    assert_eq!(query.path, "a");
    assert_eq!(query.range, range(7, 8));
    assert_eq!(query.resolver, Resolver::FromStmt);
    let query = import_query(&s, 8).unwrap();
    assert_eq!(query.path, "a");
    assert_eq!(query.range, range(7, 8));
    let query = import_query(&s, 10).unwrap();
    assert_eq!(query.path, "a.bé");
    assert_eq!(query.range, range(9, 12));
}

#[test]
fn import_of_the_last_part_or_alias_is_whole() {
    let s = dotted_import();
    let query = import_query(&s, 13).unwrap();
    assert_eq!(query.path, "a.bé.c");
    assert_eq!(query.range, range(7, 14));
    let whole = Resolver::ImportStmt { name_range: range(7, 14), alias_range: range(7, 19) };
    assert_eq!(query.resolver, whole);
    let query = import_query(&s, 18).unwrap();
    assert_eq!(query.path, "a.bé.c");
    assert_eq!(query.range, range(18, 19));
    assert_eq!(query.resolver, whole);
    assert!(import_query(&s, 16).is_none());
    assert!(import_query(&s, 3).is_none());
}

#[test]
fn names_are_cut_between_characters() {
    assert!(!is_queryable(&dotted_import(), 11));
    let wide = Identifier { id: String::from("a"), range: range(7, 20) };
    assert!(wide.is_cuttable(8));
    assert!(!wide.is_cuttable(9));
    assert!(wide.is_cuttable(30));
    let far = Identifier { id: String::from("ab"), range: range(u32::MAX - 1, u32::MAX) };
    assert!(!far.is_cuttable(u32::MAX - 1));
}

#[test]
fn from_imports_ask_for_their_module() {
    let s = import_from(0, 20, Some(ident("a.b", 5)), vec![alias(16, 17, ident("c", 16), None)]);
    let query = import_query(&s, 5).unwrap();
    assert_eq!((query.path.as_str(), query.range), ("a", range(5, 6)));
    let query = import_query(&s, 7).unwrap();
    assert_eq!((query.path.as_str(), query.range), ("a.b", range(5, 8)));
    assert_eq!(query.resolver, Resolver::FromStmt);
    assert!(import_query(&s, 16).is_none());
    assert!(import_query(&import_from(0, 20, None, vec![]), 5).is_none());
    assert!(import_query(&nested_calls(), 2).is_none());
}

#[test]
fn search_resolves_imports_first_and_goes_on() {
    let stmts = vec![
        import(0, 8, vec![alias(7, 8, ident("a", 7), None)]),
        import(7, 16, vec![alias(7, 16, ident("abc", 7), None)]),
        stmt(7, 20, vec![], vec![expr(4, 7, 20, vec![])]),
    ];
    match AstUtils::get_symbols(&stmts, 7, None) {
        SymbolStep::ResolveImport { stmt, query } => {
            assert_eq!((stmt, query.path.as_str()), (0, "a"));
        }
        _ => panic!("no import"),
    }
    match AstUtils::get_symbols(&stmts, 7, Some(0)) {
        SymbolStep::Evaluate { expr: ExprOrIdent::Ident(ident), .. } => assert_eq!(ident.id, "a"),
        _ => panic!("no name"),
    }
    match AstUtils::get_symbols(&stmts, 9, None) {
        SymbolStep::ResolveImport { stmt, query } => {
            assert_eq!((stmt, query.path.as_str()), (1, "abc"));
        }
        _ => panic!("no import"),
    }
    match AstUtils::get_symbols(&stmts, 15, None) {
        SymbolStep::Evaluate { expr: ExprOrIdent::Expr(node), call } => {
            assert_eq!(node.id, 4);
            assert!(call.is_none());
        }
        _ => panic!("no expression"),
    }
    assert!(matches!(AstUtils::get_symbols(&stmts, 90, None), SymbolStep::NotFound));
}

#[test]
fn statements_after_the_found_one_do_not_matter() {
    let stmts = vec![stmt(0, 30, vec![], vec![expr(1, 0, 30, vec![])]), dotted_import()];
    assert!(!is_queryable(&stmts[1], 11));
    assert!(AstUtils::is_searchable(&stmts, 11, None));
    assert!(!AstUtils::is_searchable(&vec![dotted_import()], 11, None));
    assert!(AstUtils::is_searchable(&vec![dotted_import()], 11, Some(0)));
    assert!(matches!(AstUtils::get_symbols(&stmts, 11, None), SymbolStep::Evaluate { .. }));
}

#[test]
fn imports_point_to_what_was_found() {
    let query = import_query(&dotted_import(), 13).unwrap();
    let resolved = vec![
        ImportResult { symbol: 4, found: false },
        ImportResult { symbol: 5, found: true },
        ImportResult { symbol: 6, found: true },
    ];
    let found = AstUtils::get_symbol_in_import(&query, &resolved).unwrap();
    let targets: Vec<Option<SymbolId>> =
        found.result.evaluations.iter().map(|e| e.symbol.target).collect();
    assert_eq!(targets, vec![Some(5), Some(6)]);
    assert_eq!(found.result.evaluations[0].symbol.instance, None);
    assert_eq!(found.range, Some(range(7, 14)));
    assert!(found.expr.is_none() && found.call.is_none());
    let nothing = vec![ImportResult { symbol: 4, found: false }];
    assert!(AstUtils::get_symbol_in_import(&query, &nothing).is_none());
}

fn odoo() -> SyncOdoo {
    SyncOdoo::new(Version { major: 18, minor: 0, patch: 0 })
}

#[test]
fn evaluation_is_given_module_and_range() {
    let mut odoo = odoo();
    let base = odoo.add_symbol(
        String::from("base"),
        SymbolData::Module(ModuleSymbol::new(String::from("base"), vec![])),
    );
    let file = odoo.add_symbol(String::from("f"), SymbolData::File(FileSymbol::new()));
    let e = expr(1, 4, 9, vec![]);
    let request = AstUtils::get_symbol_from_expr(&odoo, file, &ExprOrIdent::Expr(&e), 6);
    assert!(matches!(request.context.get("module"), Some(ContextValue::BOOLEAN(false))));
    odoo.place_symbol(file, Some(base), None, None);
    let request = AstUtils::get_symbol_from_expr(&odoo, file, &ExprOrIdent::Expr(&e), 6);
    assert!(matches!(request.context.get("module"), Some(ContextValue::MODULE(m)) if *m == base));
    assert!(matches!(request.context.get("range"), Some(ContextValue::RANGE(r)) if *r == range(4, 9)));
    assert_eq!((request.offset, request.end, request.range), (6, 9, range(4, 9)));
    assert!(!request.is_param);
    let parameter = node(2, 4, 12, NodeDetail::Parameter { name: ident("p", 4) }, vec![]);
    let request =
        AstUtils::get_symbol_from_expr(&odoo, file, &ExprOrIdent::Parameter(&parameter), 4);
    assert!(request.is_param);
    assert_eq!(request.end, 12);
}

#[test]
fn expressions_are_flattened_without_dots() {
    let name = DottedExpr::Name(String::from("self"));
    assert_eq!(AstUtils::flatten_expr(&name), "self");
    let attribute =
        DottedExpr::Attribute { value: Box::new(name), attr: String::from("partner_id") };
    assert_eq!(AstUtils::flatten_expr(&attribute), "selfpartner_id");
    assert_eq!(AstUtils::flatten_expr(&DottedExpr::Other), "//Unhandled//");
    let on_call = DottedExpr::Attribute { value: Box::new(DottedExpr::Other), attr: String::from("x") };
    assert_eq!(AstUtils::flatten_expr(&on_call), "//Unhandled//x");
}

#[test]
fn scopes_are_built_from_the_outermost_function() {
    let mut odoo = odoo();
    let function =
        || SymbolData::Function(FunctionSymbol::new(String::from("f"), range(0, 9), 3, false));
    let outer = odoo.add_symbol(String::from("outer"), function());
    let inner = odoo.add_symbol(String::from("inner"), function());
    let file = odoo.add_symbol(String::from("file"), SymbolData::File(FileSymbol::new()));
    assert_eq!(AstUtils::build_scope(&odoo, file, None), None);
    assert_eq!(AstUtils::build_scope(&odoo, inner, None), Some((inner, BuildSteps::ARCH)));
    odoo.place_symbol(inner, None, None, Some(outer));
    assert_eq!(AstUtils::build_scope(&odoo, inner, None), Some((outer, BuildSteps::ARCH)));
    odoo.set_build_status(outer, BuildSteps::ARCH, BuildStatus::DONE);
    let arch = Some(BuildSteps::ARCH);
    let eval = Some(BuildSteps::ARCH_EVAL);
    assert_eq!(AstUtils::build_scope(&odoo, inner, arch), Some((outer, BuildSteps::ARCH_EVAL)));
    assert_eq!(AstUtils::build_scope(&odoo, inner, None), Some((outer, BuildSteps::ARCH_EVAL)));
    assert_eq!(AstUtils::build_scope(&odoo, inner, eval), None);
    odoo.set_build_status(outer, BuildSteps::ARCH_EVAL, BuildStatus::DONE);
    assert_eq!(AstUtils::build_scope(&odoo, inner, None), None);
    odoo.drop_symbol(outer);
    assert_eq!(AstUtils::build_scope(&odoo, inner, None), Some((inner, BuildSteps::ARCH)));
}

#[test]
fn python_hover_needs_a_symbol() {
    let e = expr(1, 4, 9, vec![]);
    let c = call(2, 0, 20, range(3, 20), vec![]);
    let result = AnalyzeAstResult { evaluations: vec![], diagnostics: vec![] };
    let found = AstUtils::evaluated(ExprOrIdent::Expr(&e), None, result);
    assert_eq!(found.range, Some(range(4, 9)));
    assert!(HoverFeature::hover_python(found).is_none());
    assert!(HoverFeature::hover_python(AstUtils::not_found()).is_none());
    let evaluations = vec![Evaluation::eval_from_symbol(3, None)];
    let result = AnalyzeAstResult { evaluations, diagnostics: vec![] };
    let found = AstUtils::evaluated(ExprOrIdent::Expr(&e), Some(&c), result);
    let hover = HoverFeature::hover_python(found).unwrap();
    assert_eq!(hover.range, range(4, 9));
    assert_eq!(hover.evaluations.len(), 1);
    assert_eq!(hover.call.unwrap().id, 2);
}

#[test]
fn xml_hover_needs_a_document() {
    assert!(HoverFeature::hover_xml("<odoo><a></odoo>").is_none());
    let root = HoverFeature::hover_xml("<odoo><a/></odoo>").unwrap();
    assert_eq!(root.tag, "odoo");
    assert_eq!(root.children[0].tag, "a");
}

#[test]
fn xml_hover_describes_symbols_only() {
    let results = vec![XmlAstResult::OTHER, XmlAstResult::SYMBOL(7), XmlAstResult::SYMBOL(8)];
    let hover = HoverFeature::hover_xml_symbols(&results, Some(3..5));
    let targets: Vec<(Option<SymbolId>, Option<bool>)> =
        hover.evaluations.iter().map(|e| (e.symbol.target, e.symbol.instance)).collect();
    assert_eq!(targets, vec![(Some(7), Some(false)), (Some(8), Some(false))]);
    assert_eq!(hover.range, Some(3..5));
}

#[test]
fn csv_hover_shows_nothing() {
    assert!(HoverFeature::hover_csv().is_none());
}
