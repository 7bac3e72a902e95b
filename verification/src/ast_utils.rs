//! Symbols under a cursor in a Python file.
//!
//! Imports, scopes and expressions are resolved by the rest of the server. Here is decided
//! what it has to resolve, in which order, and what comes of its answers.
use vstd::prelude::*;
use vstd::string::StringExecFns;

use crate::ast_nodes::{nothing_found, visited, AstNode, ExprFinderVisitor, ExprOrIdent, Finding};
use crate::constants::{BuildStatus, BuildSteps, SymType, SymbolId};
use crate::diagnostics::Diagnostic;
use crate::evaluation::{context_view, evaluation_views, Context, ContextValue, ContextValueView, Evaluation, EvaluationView, TextRange};
use crate::import_query::{can_be_queried, import_query, is_queryable, query_at, ImportQuery, QueryView};
use crate::names::NameMap;
use crate::odoo::SyncOdoo;
use crate::symbols::SymbolData;

verus! {

/// What the evaluation of an expression gave.
pub struct AnalyzeAstResult {
    pub evaluations: Vec<Evaluation>,
    pub diagnostics: Vec<Diagnostic>,
}

/// A symbol that the lookup of an import came to.
#[derive(Clone, Copy, Debug)]
pub struct ImportResult {
    pub symbol: SymbolId,
    /// Whether the whole path was found.
    pub found: bool,
}

/// What is known of the symbols under the cursor.
pub struct FoundSymbols<'a> {
    pub result: AnalyzeAstResult,
    /// The part of the file that the symbols were written in.
    pub range: Option<TextRange>,
    pub expr: Option<ExprOrIdent<'a>>,
    /// The call in whose arguments the cursor stands.
    pub call: Option<&'a AstNode>,
}

impl FoundSymbols<'_> {
    /// Whether symbols come with a range.
    pub open spec fn is_ranged(self) -> bool {
        self.result.evaluations@.len() > 0 ==> self.range is Some
    }
}

/// What has to be resolved next to find the symbols under the cursor.
pub enum SymbolStep<'a> {
    /// Look up the path that the import at position `stmt` asks for.
    ResolveImport { stmt: usize, query: ImportQuery },
    /// Evaluate an expression.
    Evaluate { expr: ExprOrIdent<'a>, call: Option<&'a AstNode> },
    /// Nothing: there is no symbol under the cursor.
    NotFound,
}

/// Mathematical model of a `SymbolStep`.
#[verifier::ext_equal]
pub enum StepView<'a> {
    ResolveImport(int, QueryView),
    Evaluate(Finding<'a>),
    NotFound,
}

impl<'a> View for SymbolStep<'a> {
    type V = StepView<'a>;

    open spec fn view(&self) -> StepView<'a> {
        match *self {
            SymbolStep::ResolveImport { stmt, query } => StepView::ResolveImport(
                stmt as int,
                query@,
            ),
            SymbolStep::Evaluate { expr, call } => StepView::Evaluate(
                Finding { expr: Some(expr), call },
            ),
            SymbolStep::NotFound => StepView::NotFound,
        }
    }
}

/// What has to be resolved from the statement at `i` on: in the first statement that has
/// either, the path that it imports under the cursor, or else what the cursor stands on. If
/// `tried`, the import of the statement at `i` came to nothing.
pub open spec fn step_from<'a>(
    stmts: Seq<AstNode>,
    offset: u32,
    i: int,
    tried: bool,
) -> StepView<'a>
    decreases stmts.len() - i,
{
    if i < 0 || i >= stmts.len() {
        StepView::NotFound
    } else if !tried && query_at(stmts[i], offset) is Some {
        StepView::ResolveImport(i, query_at(stmts[i], offset)->0)
    } else if visited(stmts[i], offset, nothing_found()).expr is Some {
        StepView::Evaluate(visited(stmts[i], offset, nothing_found()))
    } else {
        step_from(stmts, offset, i + 1, false)
    }
}

/// Whether the search can look at every statement that it comes to.
pub open spec fn can_be_searched(stmts: Seq<AstNode>, offset: u32, i: int, tried: bool) -> bool
    decreases stmts.len() - i,
{
    0 <= i < stmts.len() ==> {
        &&& tried || can_be_queried(stmts[i], offset)
        &&& {
            ||| !tried && query_at(stmts[i], offset) is Some
            ||| visited(stmts[i], offset, nothing_found()).expr is Some
            ||| can_be_searched(stmts, offset, i + 1, false)
        }
    }
}

/// An import that is to be resolved stands after the ones that came to nothing, so the search
/// comes to an end.
pub proof fn search_goes_on(stmts: Seq<AstNode>, offset: u32, i: int, tried: bool)
    requires
        0 <= i,
    ensures
        step_from(stmts, offset, i, tried) matches StepView::ResolveImport(stmt, _) ==> i <= stmt
            < stmts.len() && (tried ==> i < stmt),
    decreases stmts.len() - i,
{
    if i < stmts.len() && (tried || query_at(stmts[i], offset) is None) && visited(
        stmts[i],
        offset,
        nothing_found(),
    ).expr is None {
        search_goes_on(stmts, offset, i + 1, false);
    }
}

/// Where the search ends with nothing, no statement has anything under the cursor.
pub proof fn search_skips_nothing(stmts: Seq<AstNode>, offset: u32, i: int, tried: bool)
    requires
        0 <= i,
        step_from(stmts, offset, i, tried) is NotFound,
    ensures
        forall|k: int|
            i <= k < stmts.len() ==> visited(#[trigger] stmts[k], offset, nothing_found()).expr
                is None,
        forall|k: int|
            i <= k < stmts.len() && (k > i || !tried) ==> query_at(#[trigger] stmts[k], offset)
                is None,
    decreases stmts.len() - i,
{
    if i < stmts.len() {
        search_skips_nothing(stmts, offset, i + 1, false);
    }
}

/// The evaluations that point to the symbols that were found.
pub open spec fn import_evaluations(resolved: Seq<ImportResult>) -> Seq<EvaluationView>
    decreases resolved.len(),
{
    if resolved.len() == 0 {
        Seq::empty()
    } else if resolved.last().found {
        import_evaluations(resolved.drop_last()).push(points_to(resolved.last().symbol))
    } else {
        import_evaluations(resolved.drop_last())
    }
}

/// An evaluation that points to `symbol` and leaves open what of it.
pub open spec fn points_to(symbol: SymbolId) -> EvaluationView {
    EvaluationView { target: Some(symbol), instance: None, context: Map::empty(), value: None }
}

/// What the evaluation of an expression is given.
pub struct EvaluationRequest {
    /// The cursor, by which the scope around it is found.
    pub offset: u32,
    /// Whether the cursor stands on a parameter, whose scope is that of its function.
    pub is_param: bool,
    pub context: Context,
    /// Definitions up to here count.
    pub end: u32,
    /// The part of the file that the answer is about.
    pub range: TextRange,
}

/// The context of an evaluation: the module of the file, and the range of the expression.
pub open spec fn request_context(module: Option<SymbolId>, range: TextRange) -> Map<
    Seq<char>,
    ContextValueView,
> {
    Map::<Seq<char>, ContextValueView>::empty().insert(
        "module"@,
        match module {
            Some(id) => ContextValueView::Module(id),
            None => ContextValueView::Boolean(false),
        },
    ).insert("range"@, ContextValueView::Range(range))
}

/// An expression made of names.
#[derive(Debug)]
pub enum DottedExpr {
    Name(String),
    Attribute { value: Box<DottedExpr>, attr: String },
    /// Any other expression.
    Other,
}

/// The names of an expression one after the other, without dots.
pub open spec fn flattened(expr: DottedExpr) -> Seq<char>
    decreases expr,
{
    match expr {
        DottedExpr::Name(id) => id@,
        DottedExpr::Attribute { value, attr } => flattened(*value) + attr@,
        DottedExpr::Other => "//Unhandled//"@,
    }
}

/// The function that is built for the sake of `scope`: the outermost one around it, as that
/// builds the inner ones too, or else `scope` itself; none if `scope` is no function.
pub open spec fn scope_to_build(odoo: SyncOdoo, scope: SymbolId) -> Option<SymbolId> {
    if odoo.typ(scope) != Some(SymType::FUNCTION) {
        None
    } else {
        match odoo.sym(scope).outer_function {
            Some(outer) => if odoo.typ(outer) == Some(SymType::FUNCTION) {
                Some(outer)
            } else {
                Some(scope)
            },
            None => Some(scope),
        }
    }
}

/// Whether a step of the function at `id` is still to be done.
pub open spec fn is_pending(odoo: SyncOdoo, id: SymbolId, step: BuildSteps) -> bool {
    match odoo.sym(id).data {
        SymbolData::Function(function) => match step {
            BuildSteps::ARCH => function.arch_status == BuildStatus::PENDING,
            BuildSteps::ARCH_EVAL => function.arch_eval_status == BuildStatus::PENDING,
            _ => false,
        },
        _ => false,
    }
}

/// The build that `scope` needs next, after the step `done`.
pub open spec fn next_build(odoo: SyncOdoo, scope: SymbolId, done: Option<BuildSteps>) -> Option<
    (SymbolId, BuildSteps),
> {
    match scope_to_build(odoo, scope) {
        Some(target) => if done is None && is_pending(odoo, target, BuildSteps::ARCH) {
            Some((target, BuildSteps::ARCH))
        } else if (done is None || done == Some(BuildSteps::ARCH)) && is_pending(
            odoo,
            target,
            BuildSteps::ARCH_EVAL,
        ) {
            Some((target, BuildSteps::ARCH_EVAL))
        } else {
            None
        },
        None => None,
    }
}

/// Whatever the builds make of the symbols, at most two are asked for, each step once and the
/// architecture before its evaluation.
pub proof fn builds_come_to_an_end(
    odoo: SyncOdoo,
    after: SyncOdoo,
    scope: SymbolId,
    done: Option<BuildSteps>,
)
    ensures
        match next_build(odoo, scope, done) {
            Some((_, BuildSteps::ARCH)) => done is None && match next_build(
                after,
                scope,
                Some(BuildSteps::ARCH),
            ) {
                Some((_, step)) => step == BuildSteps::ARCH_EVAL,
                None => true,
            },
            Some((_, step)) => step == BuildSteps::ARCH_EVAL && next_build(
                after,
                scope,
                Some(BuildSteps::ARCH_EVAL),
            ) is None,
            None => true,
        },
{
}

/// Finds and resolves what stands under a cursor.
pub struct AstUtils {}

impl AstUtils {
    /// What has to be resolved next to find the symbols at `offset`. `tried` is the position
    /// of the statement whose import came to nothing, none at first.
    pub fn get_symbols<'a>(stmts: &'a Vec<AstNode>, offset: u32, tried: Option<usize>) -> (r:
        SymbolStep<'a>)
        requires
            match tried {
                Some(stmt) => can_be_searched(stmts@, offset, stmt as int, true),
                None => can_be_searched(stmts@, offset, 0, false),
            },
        ensures
            r@ == match tried {
                Some(stmt) => step_from(stmts@, offset, stmt as int, true),
                None => step_from(stmts@, offset, 0, false),
            },
    {
        let ghost expected = match tried {
            Some(stmt) => step_from(stmts@, offset, stmt as int, true),
            None => step_from(stmts@, offset, 0, false),
        };
        let mut i: usize = 0;
        let mut skip_import = false;
        if let Some(stmt) = tried {
            i = stmt;
            skip_import = true;
        }
        while i < stmts.len()
            invariant
                can_be_searched(stmts@, offset, i as int, skip_import),
                expected == step_from(stmts@, offset, i as int, skip_import),
                expected == match tried {
                    Some(stmt) => step_from(stmts@, offset, stmt as int, true),
                    None => step_from(stmts@, offset, 0, false),
                },
            decreases stmts.len() - i,
        {
            let stmt = &stmts[i];
            if !skip_import {
                if let Some(query) = import_query(stmt, offset) {
                    return SymbolStep::ResolveImport { stmt: i, query };
                }
            }
            let (found, call) = ExprFinderVisitor::find_expr_at(stmt, offset);
            if let Some(expr) = found {
                return SymbolStep::Evaluate { expr, call };
            }
            i = i + 1;
            skip_import = false;
        }
        SymbolStep::NotFound
    }

    /// Whether the search can look at every statement that it comes to.
    pub fn is_searchable(stmts: &Vec<AstNode>, offset: u32, tried: Option<usize>) -> (r: bool)
        ensures
            r == match tried {
                Some(stmt) => can_be_searched(stmts@, offset, stmt as int, true),
                None => can_be_searched(stmts@, offset, 0, false),
            },
    {
        let ghost expected = match tried {
            Some(stmt) => can_be_searched(stmts@, offset, stmt as int, true),
            None => can_be_searched(stmts@, offset, 0, false),
        };
        let mut i: usize = 0;
        let mut skip_import = false;
        if let Some(stmt) = tried {
            i = stmt;
            skip_import = true;
        }
        while i < stmts.len()
            invariant
                expected == can_be_searched(stmts@, offset, i as int, skip_import),
                expected == match tried {
                    Some(stmt) => can_be_searched(stmts@, offset, stmt as int, true),
                    None => can_be_searched(stmts@, offset, 0, false),
                },
            decreases stmts.len() - i,
        {
            let stmt = &stmts[i];
            if !skip_import {
                if !is_queryable(stmt, offset) {
                    return false;
                }
                if import_query(stmt, offset).is_some() {
                    return true;
                }
            }
            let (found, _) = ExprFinderVisitor::find_expr_at(stmt, offset);
            if found.is_some() {
                return true;
            }
            i = i + 1;
            skip_import = false;
        }
        true
    }

    /// The symbols that the lookup of an import came to; nothing if none was found, so that the
    /// search has to go on.
    pub fn get_symbol_in_import<'a>(query: &ImportQuery, resolved: &Vec<ImportResult>) -> (r:
        Option<FoundSymbols<'a>>)
        ensures
            r is Some == (import_evaluations(resolved@).len() > 0),
            r is Some ==> {
                &&& evaluation_views(r->0.result.evaluations@) == import_evaluations(resolved@)
                &&& r->0.result.diagnostics@.len() == 0
                &&& r->0.range == Some(query.range)
                &&& r->0.expr is None
                &&& r->0.call is None
                &&& r->0.is_ranged()
            },
    {
        let mut evaluations: Vec<Evaluation> = Vec::new();
        let mut i: usize = 0;
        assert(resolved@.take(0) =~= Seq::empty());
        assert(evaluation_views(evaluations@) =~= Seq::empty());
        while i < resolved.len()
            invariant
                i <= resolved.len(),
                evaluation_views(evaluations@) == import_evaluations(resolved@.take(i as int)),
            decreases resolved.len() - i,
        {
            assert(resolved@.take(i + 1).drop_last() =~= resolved@.take(i as int));
            if resolved[i].found {
                let ghost before = evaluation_views(evaluations@);
                let evaluation = Evaluation::eval_from_symbol(resolved[i].symbol, None);
                evaluations.push(evaluation);
                assert(evaluation_views(evaluations@) =~= before.push(evaluation@));
            }
            i = i + 1;
        }
        assert(resolved@.take(i as int) =~= resolved@);
        assert(evaluations@.len() == evaluation_views(evaluations@).len());
        if evaluations.len() == 0 {
            return None;
        }
        Some(
            FoundSymbols {
                result: AnalyzeAstResult { evaluations, diagnostics: Vec::new() },
                range: Some(query.range),
                expr: None,
                call: None,
            },
        )
    }

    /// What the evaluation of `expr`, under the cursor at `offset` in `file_symbol`, is given.
    pub fn get_symbol_from_expr(
        odoo: &SyncOdoo,
        file_symbol: SymbolId,
        expr: &ExprOrIdent<'_>,
        offset: u32,
    ) -> (r: EvaluationRequest)
        requires
            odoo.live(file_symbol),
        ensures
            r.offset == offset,
            r.is_param == expr is Parameter,
            context_view(r.context) == request_context(
                odoo.sym(file_symbol).module,
                expr.text_range(),
            ),
            r.end == expr.text_range().end,
            r.range == expr.text_range(),
    {
        let range = expr.range();
        let module = match odoo.module_of(file_symbol) {
            Some(id) => ContextValue::MODULE(id),
            None => ContextValue::BOOLEAN(false),
        };
        let ghost module_value = module@;
        let mut context: Context = NameMap::new();
        let place = context.entry("module", ContextValue::BOOLEAN(false));
        *place = module;
        let ghost first = context_view(context);
        assert(first =~= Map::<Seq<char>, ContextValueView>::empty().insert(
            "module"@,
            module_value,
        ));
        let place = context.entry("range", ContextValue::BOOLEAN(false));
        *place = ContextValue::RANGE(range);
        assert(context_view(context) =~= first.insert("range"@, ContextValueView::Range(range)));
        let is_param = match expr {
            ExprOrIdent::Parameter(_) => true,
            _ => false,
        };
        EvaluationRequest { offset, is_param, context, end: range.end, range }
    }

    /// The symbols that the evaluation of an expression came to.
    pub fn evaluated<'a>(
        expr: ExprOrIdent<'a>,
        call: Option<&'a AstNode>,
        result: AnalyzeAstResult,
    ) -> (r: FoundSymbols<'a>)
        ensures
            r.result == result,
            r.range == Some(expr.text_range()),
            r.expr == Some(expr),
            r.call == call,
            r.is_ranged(),
    {
        let range = expr.range();
        FoundSymbols { result, range: Some(range), expr: Some(expr), call }
    }

    /// What is known where nothing stands under the cursor.
    pub fn not_found<'a>() -> (r: FoundSymbols<'a>)
        ensures
            r.result.evaluations@.len() == 0,
            r.result.diagnostics@.len() == 0,
            r.range is None,
            r.expr is None,
            r.call is None,
            r.is_ranged(),
    {
        FoundSymbols {
            result: AnalyzeAstResult { evaluations: Vec::new(), diagnostics: Vec::new() },
            range: None,
            expr: None,
            call: None,
        }
    }

    /// The names of an expression one after the other, without dots.
    pub fn flatten_expr(expr: &DottedExpr) -> (r: String)
        ensures
            r@ == flattened(*expr),
        decreases expr,
    {
        match expr {
            DottedExpr::Name(id) => id.as_str().to_owned(),
            DottedExpr::Attribute { value, attr } => {
                let mut text = AstUtils::flatten_expr(value);
                text.append(attr.as_str());
                text
            },
            DottedExpr::Other => "//Unhandled//".to_owned(),
        }
    }

    /// The build that `scope` needs next before it can be analysed, after the step `done`;
    /// none at first. Bodies of functions are built only when a feature needs them.
    pub fn build_scope(odoo: &SyncOdoo, scope: SymbolId, done: Option<BuildSteps>) -> (r: Option<
        (SymbolId, BuildSteps),
    >)
        requires
            odoo.live(scope),
        ensures
            r == next_build(*odoo, scope, done),
    {
        let mut target: SymbolId = scope;
        match odoo.get(scope) {
            Some(symbol) => {
                if symbol.get_type() != SymType::FUNCTION {
                    return None;
                }
                if let Some(outer) = symbol.outer_function {
                    if let Some(outer_symbol) = odoo.get(outer) {
                        if outer_symbol.get_type() == SymType::FUNCTION {
                            target = outer;
                        }
                    }
                }
            },
            None => {
                return None;
            },
        }
        if let Some(symbol) = odoo.get(target) {
            if let SymbolData::Function(function) = &symbol.data {
                let (first, second) = match done {
                    None => (true, true),
                    Some(BuildSteps::ARCH) => (false, true),
                    Some(_) => (false, false),
                };
                if first && function.arch_status == BuildStatus::PENDING {
                    return Some((target, BuildSteps::ARCH));
                }
                if second && function.arch_eval_status == BuildStatus::PENDING {
                    return Some((target, BuildSteps::ARCH_EVAL));
                }
            }
        }
        None
    }
}

} // verus!
