//! What is found under a cursor, and what is looked up for it.
use vstd::prelude::*;

use crate::ast_laws::found_stays;
use crate::ast_nodes::{first_ident, nothing_found, visited, walked, AstNode, ExprOrIdent, Finding, Identifier, NodeDetail};
use crate::ast_utils::{flattened, import_evaluations, next_build, points_to, request_context, step_from, DottedExpr, ImportResult, StepView};
use crate::constants::{BuildStatus, BuildSteps, SymType, SymbolId};
use crate::evaluation::{ContextValueView, EvaluationView, TextRange};
use crate::hover::{symbol_evaluations, XmlAstResult};
use crate::import_laws::within;
use crate::import_query::query_at;
use crate::odoo::SyncOdoo;
use crate::symbols::SymbolData;

verus! {

/// Whether the cursor is within a name that may be missing.
pub open spec fn in_optional(ident: Option<Identifier>, offset: u32) -> bool {
    ident matches Some(ident) && within(ident.range, offset)
}

/// Whether the first of the names that the cursor is within is the one at `i`.
pub open spec fn first_within(idents: Seq<Identifier>, offset: u32, i: int) -> bool {
    &&& 0 <= i < idents.len()
    &&& within(idents[i].range, offset)
    &&& forall|j: int| 0 <= j < i ==> !within((#[trigger] idents[j]).range, offset)
}

/// Whether the cursor is within something that the node claims for itself: an expression, or a
/// name that the node writes. Patterns and generic parameters claim their names only if the
/// cursor is within them.
pub open spec fn claims(node: AstNode, offset: u32) -> bool {
    match node.detail {
        NodeDetail::Expr { .. } => within(node.range, offset),
        NodeDetail::Alias { name, asname } => within(name.range, offset) || in_optional(
            asname,
            offset,
        ),
        NodeDetail::ExceptHandler { bound } => in_optional(bound, offset),
        NodeDetail::Parameter { name } => within(name.range, offset),
        NodeDetail::Keyword { arg } => in_optional(arg, offset),
        NodeDetail::PatternKeyword { attr } => within(attr.range, offset),
        NodeDetail::TypeParam { name } => within(node.range, offset) && within(name.range, offset),
        NodeDetail::Pattern { bound } => within(node.range, offset) && in_optional(bound, offset),
        NodeDetail::Stmt { idents, .. } => exists|i: int| #[trigger]
            first_within(idents@, offset, i),
    }
}

/// Whether one of the nodes, or something below it, claims the cursor.
pub open spec fn any_holds(children: Seq<AstNode>, offset: u32) -> bool
    decreases children,
{
    children.len() > 0 && (any_holds(children.drop_last(), offset) || holds_target(
        children.last(),
        offset,
    ))
}

/// Whether the node, or something below it, claims the cursor. What stands below a pattern counts
/// only if the cursor is within the pattern.
pub open spec fn holds_target(node: AstNode, offset: u32) -> bool
    decreases node,
{
    claims(node, offset) || (node.detail is Pattern ==> within(node.range, offset)) && any_holds(
        node.children@,
        offset,
    )
}

proof fn first_ident_is_first(idents: Seq<Identifier>, offset: u32)
    ensures
        first_ident(idents, offset) is Some <==> exists|i: int| #[trigger]
            first_within(idents, offset, i),
        forall|i: int| #[trigger]
            first_within(idents, offset, i) ==> first_ident(idents, offset) == Some(idents[i]),
        first_ident(idents, offset) matches Some(ident) ==> within(ident.range, offset),
    decreases idents.len(),
{
    if idents.len() > 0 {
        let front = idents.drop_last();
        let n = idents.len() - 1;
        first_ident_is_first(front, offset);
        assert(idents[n] == idents.last());
        assert forall|i: int| first_within(front, offset, i) implies #[trigger] first_within(
            idents,
            offset,
            i,
        ) by {
            assert(front[i] == idents[i]);
            assert forall|j: int| 0 <= j < i implies !within(
                (#[trigger] idents[j]).range,
                offset,
            ) by {
                assert(!within(front[j].range, offset));
            }
        }
        assert forall|i: int| #[trigger]
            first_within(idents, offset, i) && i < n implies first_within(front, offset, i) by {
            assert(front[i] == idents[i]);
            assert forall|j: int| 0 <= j < i implies !within(
                (#[trigger] front[j]).range,
                offset,
            ) by {
                assert(!within(idents[j].range, offset));
            }
        }
        if first_ident(front, offset) is Some {
            let i = choose|i: int| #[trigger] first_within(front, offset, i);
            assert(first_within(idents, offset, i));
            assert forall|k: int| #[trigger]
                first_within(idents, offset, k) implies first_ident(idents, offset) == Some(
                idents[k],
            ) by {
                if k == n {
                    assert(!within(idents[i].range, offset));
                }
                assert(first_within(front, offset, k));
            }
        } else {
            assert forall|j: int| 0 <= j < n implies !within(
                (#[trigger] idents[j]).range,
                offset,
            ) by {
                if within(idents[j].range, offset) {
                    let i = some_first(front, offset, j);
                }
            }
            if within(idents.last().range, offset) {
                assert(first_within(idents, offset, n));
            }
            assert forall|k: int| #[trigger] first_within(idents, offset, k) implies k == n by {
                if k < n {
                    assert(first_within(front, offset, k));
                }
            }
        }
    }
}

proof fn some_first(idents: Seq<Identifier>, offset: u32, j: int) -> (i: int)
    requires
        0 <= j < idents.len(),
        within(idents[j].range, offset),
    ensures
        first_within(idents, offset, i),
    decreases j,
{
    if exists|k: int| 0 <= k < j && within((#[trigger] idents[k]).range, offset) {
        let k = choose|k: int| 0 <= k < j && within((#[trigger] idents[k]).range, offset);
        some_first(idents, offset, k)
    } else {
        j
    }
}

/// A search that has found nothing yet finds something in a node if and only if the node, or
/// something below it, claims the cursor.
pub proof fn target_is_found(node: AstNode, offset: u32, s: Finding<'_>)
    requires
        s.expr is None,
    ensures
        visited(node, offset, s).expr is Some <==> holds_target(node, offset),
    decreases node,
{
    let children = node.children@;
    walk_finds_target(children, offset, s);
    let below = walked(children, offset, s);
    if below.expr is Some {
        walk_stays(children, offset, below);
    } else {
        walk_finds_target(children, offset, below);
    }
    match node.detail {
        NodeDetail::Expr { .. } => {
            walk_finds_target(children, offset, Finding { call: Some(&node), ..s });
        },
        NodeDetail::Stmt { idents, .. } => {
            first_ident_is_first(idents@, offset);
        },
        _ => {},
    }
}

proof fn walk_stays(children: Seq<AstNode>, offset: u32, s: Finding<'_>)
    requires
        s.expr is Some,
    ensures
        walked(children, offset, s).expr == s.expr,
    decreases children.len(),
{
    if children.len() > 0 {
        walk_stays(children.drop_last(), offset, s);
        found_stays(children.last(), offset, walked(children.drop_last(), offset, s));
    }
}

proof fn walk_finds_target(children: Seq<AstNode>, offset: u32, s: Finding<'_>)
    requires
        s.expr is None,
    ensures
        walked(children, offset, s).expr is Some <==> any_holds(children, offset),
    decreases children,
{
    if children.len() > 0 {
        let front = walked(children.drop_last(), offset, s);
        walk_finds_target(children.drop_last(), offset, s);
        if front.expr is Some {
            found_stays(children.last(), offset, front);
        } else {
            target_is_found(children.last(), offset, front);
        }
    }
}

/// Where nothing below a node claims the cursor, the node's own claim is what is found: the
/// expression itself, the whole parameter, or the name; of an import the name goes before its
/// alias, of several names the first counts.
pub proof fn own_claim_is_found(node: AstNode, offset: u32, s: Finding<'_>)
    requires
        s.expr is None,
        claims(node, offset),
        !any_holds(node.children@, offset),
    ensures
        ({
            let found = visited(node, offset, s).expr;
            match node.detail {
                NodeDetail::Expr { .. } => found == Some(ExprOrIdent::Expr(&node)),
                NodeDetail::Parameter { .. } => found == Some(ExprOrIdent::Parameter(&node)),
                NodeDetail::Alias { name, asname } => found == Some(
                    ExprOrIdent::Ident(
                        &if within(name.range, offset) {
                            name
                        } else {
                            asname->0
                        },
                    ),
                ),
                NodeDetail::ExceptHandler { bound } => found == Some(ExprOrIdent::Ident(&bound->0)),
                NodeDetail::Keyword { arg } => found == Some(ExprOrIdent::Ident(&arg->0)),
                NodeDetail::PatternKeyword { attr } => found == Some(ExprOrIdent::Ident(&attr)),
                NodeDetail::TypeParam { name } => found == Some(ExprOrIdent::Ident(&name)),
                NodeDetail::Pattern { bound } => found == Some(ExprOrIdent::Ident(&bound->0)),
                NodeDetail::Stmt { idents, .. } => exists|i: int| #[trigger]
                    first_within(idents@, offset, i) && found == Some(
                        ExprOrIdent::Ident(&idents@[i]),
                    ),
            }
        }),
{
    let children = node.children@;
    walk_finds_target(children, offset, s);
    match node.detail {
        NodeDetail::Expr { .. } => {
            walk_finds_target(children, offset, Finding { call: Some(&node), ..s });
        },
        NodeDetail::Stmt { idents, .. } => {
            first_ident_is_first(idents@, offset);
            let i = choose|i: int| #[trigger] first_within(idents@, offset, i);
            assert(first_within(idents@, offset, i));
        },
        _ => {},
    }
}

/// Whether there is anything to resolve in a statement: a path that it imports under the cursor,
/// unless that was tried, or something that the cursor stands on.
pub open spec fn has_work(stmt: AstNode, offset: u32, tried: bool) -> bool {
    !tried && query_at(stmt, offset) is Some || holds_target(stmt, offset)
}

/// The search stops at the first statement in which there is anything to resolve: with the path
/// that it imports, which goes first, or with what the cursor stands on.
pub proof fn first_work_is_done(stmts: Seq<AstNode>, offset: u32, i: int, tried: bool, k: int)
    requires
        0 <= i <= k < stmts.len(),
        has_work(stmts[k], offset, tried && k == i),
        forall|j: int|
            i <= j < k ==> !has_work(#[trigger] stmts[j], offset, tried && j == i),
    ensures
        if !(tried && k == i) && query_at(stmts[k], offset) is Some {
            step_from(stmts, offset, i, tried) == StepView::ResolveImport(
                k,
                query_at(stmts[k], offset)->0,
            )
        } else {
            step_from(stmts, offset, i, tried) == StepView::Evaluate(
                visited(stmts[k], offset, nothing_found()),
            )
        },
    decreases k - i,
{
    target_is_found(stmts[i], offset, nothing_found());
    if i < k {
        assert(!has_work(stmts[i], offset, tried));
        assert forall|j: int| i + 1 <= j < k implies !has_work(
            #[trigger] stmts[j],
            offset,
            false && j == i + 1,
        ) by {
            assert(!has_work(stmts[j], offset, tried && j == i));
        }
        first_work_is_done(stmts, offset, i + 1, false, k);
    }
}

/// The search ends with nothing if and only if there is nothing to resolve in any statement.
pub proof fn no_work_is_none(stmts: Seq<AstNode>, offset: u32, i: int, tried: bool)
    requires
        0 <= i,
    ensures
        step_from(stmts, offset, i, tried) is NotFound <==> forall|j: int|
            i <= j < stmts.len() ==> !has_work(#[trigger] stmts[j], offset, tried && j == i),
    decreases stmts.len() - i,
{
    if i < stmts.len() {
        target_is_found(stmts[i], offset, nothing_found());
        no_work_is_none(stmts, offset, i + 1, false);
        if step_from(stmts, offset, i, tried) is NotFound {
            assert forall|j: int| i <= j < stmts.len() implies !has_work(
                #[trigger] stmts[j],
                offset,
                tried && j == i,
            ) by {
                if j > i {
                    assert(!has_work(stmts[j], offset, false && j == i + 1));
                }
            }
        }
        if forall|j: int|
            i <= j < stmts.len() ==> !has_work(#[trigger] stmts[j], offset, tried && j == i) {
            assert(!has_work(stmts[i], offset, tried));
            assert forall|j: int| i + 1 <= j < stmts.len() implies !has_work(
                #[trigger] stmts[j],
                offset,
                false && j == i + 1,
            ) by {
                assert(!has_work(stmts[j], offset, tried && j == i));
            }
        }
    }
}

/// The evaluations of what an import was resolved to point to the symbols that were found, in
/// their order, and to no others.
pub proof fn found_imports_are_pointed_to(resolved: Seq<ImportResult>, e: EvaluationView)
    ensures
        import_evaluations(resolved).contains(e) <==> exists|i: int|
            0 <= i < resolved.len() && (#[trigger] resolved[i]).found && e.target == Some(
                resolved[i].symbol,
            ) && e.instance is None && e.context == Map::<Seq<char>, ContextValueView>::empty()
                && e.value is None,
        import_evaluations(resolved).len() <= resolved.len(),
        (forall|i: int| 0 <= i < resolved.len() ==> (#[trigger] resolved[i]).found)
            ==> import_evaluations(resolved).len() == resolved.len() && forall|i: int|
            0 <= i < resolved.len() ==> (#[trigger] import_evaluations(resolved)[i]).target == Some(
                resolved[i].symbol,
            ),
    decreases resolved.len(),
{
    if resolved.len() > 0 {
        let front = resolved.drop_last();
        let last = resolved.last();
        let n = resolved.len() - 1;
        let before = import_evaluations(front);
        found_imports_are_pointed_to(front, e);
        assert(resolved[n] == last);
        assert forall|i: int| 0 <= i < front.len() implies front[i] == #[trigger] resolved[i] by {}
        if before.contains(e) {
            let i = choose|i: int| 0 <= i < before.len() && before[i] == e;
            assert(before.push(points_to(last.symbol))[i] == e);
            let k = choose|k: int|
                0 <= k < front.len() && (#[trigger] front[k]).found && e.target == Some(
                    front[k].symbol,
                ) && e.instance is None && e.context == Map::<Seq<char>, ContextValueView>::empty()
                    && e.value is None;
            assert(resolved[k].found);
        }
        if last.found {
            let new = points_to(last.symbol);
            assert(before.push(new)[before.len() as int] == new);
            if e.target == Some(last.symbol) && e.instance is None && e.context == Map::<
                Seq<char>,
                ContextValueView,
            >::empty() && e.value is None {
                assert(e == new);
            }
        }
        if forall|i: int| 0 <= i < resolved.len() ==> (#[trigger] resolved[i]).found {
            assert forall|i: int| 0 <= i < front.len() implies (#[trigger] front[i]).found by {
                assert(resolved[i].found);
            }
            assert(resolved[n].found);
            assert forall|i: int| 0 <= i < resolved.len() implies (
            #[trigger] import_evaluations(resolved)[i]).target == Some(resolved[i].symbol) by {
                if i < n {
                    assert(import_evaluations(front)[i].target == Some(front[i].symbol));
                }
            }
        }
    }
}

/// What is hovered over in an XML file is described by its symbols, each as the type that it is,
/// and by nothing else.
pub proof fn hovered_symbols_are_types(results: Seq<XmlAstResult>, e: EvaluationView)
    ensures
        symbol_evaluations(results).contains(e) <==> exists|i: int|
            0 <= i < results.len() && (#[trigger] results[i] matches XmlAstResult::SYMBOL(id)
                && e.target == Some(id)) && e.instance == Some(false) && e.context == Map::<
                Seq<char>,
                ContextValueView,
            >::empty() && e.value is None,
    decreases results.len(),
{
    if results.len() > 0 {
        let front = results.drop_last();
        let last = results.last();
        let n = results.len() - 1;
        let before = symbol_evaluations(front);
        hovered_symbols_are_types(front, e);
        assert(results[n] == last);
        assert forall|i: int| 0 <= i < front.len() implies front[i] == #[trigger] results[i] by {}
        if before.contains(e) {
            let k = choose|k: int|
                0 <= k < front.len() && (#[trigger] front[k] matches XmlAstResult::SYMBOL(id)
                    && e.target == Some(id)) && e.instance == Some(false) && e.context == Map::<
                    Seq<char>,
                    ContextValueView,
                >::empty() && e.value is None;
            assert(results[k] is SYMBOL);
        }
        if let XmlAstResult::SYMBOL(id) = last {
            let new = crate::hover::type_of(id);
            if before.contains(e) {
                let i = choose|i: int| 0 <= i < before.len() && before[i] == e;
                assert(before.push(new)[i] == e);
            }
            assert(before.push(new)[before.len() as int] == new);
            if e.target == Some(id) && e.instance == Some(false) && e.context == Map::<
                Seq<char>,
                ContextValueView,
            >::empty() && e.value is None {
                assert(e == new);
            }
        }
    }
}

/// The names of a dotted expression follow each other without anything between them.
pub proof fn names_follow_each_other(expr: DottedExpr)
    ensures
        match expr {
            DottedExpr::Name(id) => flattened(expr) == id@,
            DottedExpr::Attribute { value, attr } => {
                let front = flattened(*value);
                &&& flattened(expr).len() == front.len() + attr@.len()
                &&& flattened(expr).take(front.len() as int) == front
                &&& flattened(expr).skip(front.len() as int) == attr@
            },
            DottedExpr::Other => flattened(expr) == "//Unhandled//"@,
        },
{
    if let DottedExpr::Attribute { value, attr } = expr {
        let front = flattened(*value);
        assert(flattened(expr) == front + attr@);
        assert((front + attr@).take(front.len() as int) =~= front);
        assert((front + attr@).skip(front.len() as int) =~= attr@);
    }
}

/// An evaluation is asked for with the module of the file, where it has one, and with the range
/// of the expression; and with nothing else.
pub proof fn request_tells_module_and_range(module: Option<SymbolId>, range: TextRange)
    ensures
        ({
            let context = request_context(module, range);
            &&& forall|name: Seq<char>| #[trigger]
                context.contains_key(name) <==> name == "module"@ || name == "range"@
            &&& context["range"@] == ContextValueView::Range(range)
            &&& module matches Some(id) ==> context["module"@] == ContextValueView::Module(id)
            &&& module is None ==> context["module"@] == ContextValueView::Boolean(false)
        }),
{
    reveal_strlit("module");
    reveal_strlit("range");
    assert("module"@.len() == 6 && "range"@.len() == 5);
}

/// Whether the symbol at `id` is a function that is there.
pub open spec fn is_function(odoo: SyncOdoo, id: SymbolId) -> bool {
    &&& id < odoo.symbols.len()
    &&& odoo.symbols@[id as int] matches Some(symbol) && (symbol.data is Function || symbol.data
        == SymbolData::Other(SymType::FUNCTION))
}

/// Whether a scope is built by building the function at `target`: the outermost one around it, if
/// that is there, else the scope itself.
pub open spec fn is_built_by(odoo: SyncOdoo, scope: SymbolId, target: SymbolId) -> bool {
    &&& is_function(odoo, scope)
    &&& match odoo.symbols@[scope as int]->0.outer_function {
        Some(outer) => if is_function(odoo, outer) {
            target == outer
        } else {
            target == scope
        },
        None => target == scope,
    }
}

/// The build that a scope needs is that of the function it is built by: the architecture first,
/// if that is pending, then its evaluation, if that is; no step twice, and nothing for a scope
/// that is no function.
pub proof fn pending_steps_are_built(
    odoo: SyncOdoo,
    scope: SymbolId,
    done: Option<BuildSteps>,
    target: SymbolId,
)
    ensures
        !is_function(odoo, scope) ==> next_build(odoo, scope, done) is None,
        is_built_by(odoo, scope, target) ==> ({
            let data = odoo.symbols@[target as int]->0.data;
            let arch = data matches SymbolData::Function(f) && f.arch_status
                == BuildStatus::PENDING;
            let eval = data matches SymbolData::Function(f) && f.arch_eval_status
                == BuildStatus::PENDING;
            match done {
                None => next_build(odoo, scope, done) == if arch {
                    Some((target, BuildSteps::ARCH))
                } else if eval {
                    Some((target, BuildSteps::ARCH_EVAL))
                } else {
                    None
                },
                Some(BuildSteps::ARCH) => next_build(odoo, scope, done) == if eval {
                    Some((target, BuildSteps::ARCH_EVAL))
                } else {
                    None
                },
                Some(_) => next_build(odoo, scope, done) is None,
            }
        }),
{
}

} // verus!
