//! What the search for the expression under a cursor guarantees.
use vstd::prelude::*;

use crate::ast_nodes::{visited, walked, AstNode, ExprOrIdent, Finding, NodeDetail};

verus! {

/// Whether the cursor stands on `e`: within an expression, or on a name.
pub open spec fn on_cursor(e: ExprOrIdent<'_>, offset: u32) -> bool {
    match e {
        ExprOrIdent::Expr(node) => node.detail is Expr && node.range.holds(offset),
        ExprOrIdent::Ident(ident) => ident.range.holds(offset),
        ExprOrIdent::Parameter(node) => node.detail is Parameter
            && node.detail->Parameter_name.range.holds(offset),
    }
}

/// Whether `node` is a call with the cursor in its arguments.
pub open spec fn is_call_around(node: AstNode, offset: u32) -> bool {
    match node.detail {
        NodeDetail::Expr { arguments } => node.range.holds(offset) && arguments is Some
            && arguments->0.holds(offset),
        _ => false,
    }
}

/// Whether one of the nodes is or holds an expression around the cursor.
pub open spec fn any_around(children: Seq<AstNode>, offset: u32) -> bool
    decreases children,
{
    children.len() > 0 && (any_around(children.drop_last(), offset) || around(
        children.last(),
        offset,
    ))
}

/// Whether `node` is or holds an expression around the cursor. A pattern counts only if the
/// cursor stands within it.
pub open spec fn around(node: AstNode, offset: u32) -> bool
    decreases node,
{
    match node.detail {
        NodeDetail::Expr { .. } => node.range.holds(offset) || any_around(node.children@, offset),
        NodeDetail::Pattern { .. } => node.range.holds(offset) && any_around(
            node.children@,
            offset,
        ),
        _ => any_around(node.children@, offset),
    }
}

/// What was found first stays: a later node never takes its place.
pub proof fn found_stays(node: AstNode, offset: u32, s: Finding<'_>)
    requires
        s.expr is Some,
    ensures
        visited(node, offset, s).expr == s.expr,
    decreases node,
{
    let children = node.children@;
    found_stays_in(children, offset, s);
    if let NodeDetail::Expr { .. } = node.detail {
        found_stays_in(children, offset, Finding { call: Some(&node), ..s });
    }
    found_stays_in(children, offset, walked(children, offset, s));
}

proof fn found_stays_in(children: Seq<AstNode>, offset: u32, s: Finding<'_>)
    requires
        s.expr is Some,
    ensures
        walked(children, offset, s).expr == s.expr,
    decreases children,
{
    if children.len() > 0 {
        found_stays_in(children.drop_last(), offset, s);
        found_stays(children.last(), offset, walked(children.drop_last(), offset, s));
    }
}

/// What is found stands under the cursor.
pub proof fn found_is_under_cursor(node: AstNode, offset: u32, s: Finding<'_>)
    requires
        s.expr is Some ==> on_cursor(s.expr->0, offset),
    ensures
        visited(node, offset, s).expr is Some ==> on_cursor(
            visited(node, offset, s).expr->0,
            offset,
        ),
    decreases node,
{
    let children = node.children@;
    walk_is_under_cursor(children, offset, s);
    if let NodeDetail::Expr { .. } = node.detail {
        walk_is_under_cursor(children, offset, Finding { call: Some(&node), ..s });
    }
    walk_is_under_cursor(children, offset, walked(children, offset, s));
}

proof fn walk_is_under_cursor(children: Seq<AstNode>, offset: u32, s: Finding<'_>)
    requires
        s.expr is Some ==> on_cursor(s.expr->0, offset),
    ensures
        walked(children, offset, s).expr is Some ==> on_cursor(
            walked(children, offset, s).expr->0,
            offset,
        ),
    decreases children,
{
    if children.len() > 0 {
        walk_is_under_cursor(children.drop_last(), offset, s);
        found_is_under_cursor(children.last(), offset, walked(children.drop_last(), offset, s));
    }
}

/// The call that is found has the cursor in its arguments.
pub proof fn call_is_around_cursor(node: AstNode, offset: u32, s: Finding<'_>)
    requires
        s.call is Some ==> is_call_around(*s.call->0, offset),
    ensures
        visited(node, offset, s).call is Some ==> is_call_around(
            *visited(node, offset, s).call->0,
            offset,
        ),
    decreases node,
{
    let children = node.children@;
    walk_call_is_around(children, offset, s);
    if let NodeDetail::Expr { arguments } = node.detail {
        if node.range.holds(offset) && arguments is Some && arguments->0.holds(offset) {
            walk_call_is_around(children, offset, Finding { call: Some(&node), ..s });
        }
    }
    walk_call_is_around(children, offset, walked(children, offset, s));
}

proof fn walk_call_is_around(children: Seq<AstNode>, offset: u32, s: Finding<'_>)
    requires
        s.call is Some ==> is_call_around(*s.call->0, offset),
    ensures
        walked(children, offset, s).call is Some ==> is_call_around(
            *walked(children, offset, s).call->0,
            offset,
        ),
    decreases children,
{
    if children.len() > 0 {
        walk_call_is_around(children.drop_last(), offset, s);
        call_is_around_cursor(children.last(), offset, walked(children.drop_last(), offset, s));
    }
}

/// Where there is an expression around the cursor, something is found.
pub proof fn expression_is_found(node: AstNode, offset: u32, s: Finding<'_>)
    requires
        around(node, offset),
    ensures
        visited(node, offset, s).expr is Some,
    decreases node,
{
    let children = node.children@;
    if s.expr is Some {
        found_stays(node, offset, s);
    } else if any_around(children, offset) {
        walk_finds(children, offset, s);
        if let NodeDetail::Expr { .. } = node.detail {
            walk_finds(children, offset, Finding { call: Some(&node), ..s });
        }
        walk_finds(children, offset, walked(children, offset, s));
    }
}

proof fn walk_finds(children: Seq<AstNode>, offset: u32, s: Finding<'_>)
    requires
        any_around(children, offset),
    ensures
        walked(children, offset, s).expr is Some,
    decreases children,
{
    let front = walked(children.drop_last(), offset, s);
    if any_around(children.drop_last(), offset) {
        walk_finds(children.drop_last(), offset, s);
        found_stays(children.last(), offset, front);
    } else {
        expression_is_found(children.last(), offset, front);
    }
}

/// An expression that is found is the innermost one: no expression below it is around the
/// cursor.
pub proof fn found_is_innermost(node: AstNode, offset: u32, s: Finding<'_>)
    requires
        s.expr is None,
    ensures
        visited(node, offset, s).expr matches Some(ExprOrIdent::Expr(e)) ==> !any_around(
            e.children@,
            offset,
        ),
    decreases node,
{
    let children = node.children@;
    walk_is_innermost(children, offset, s);
    let below = walked(children, offset, s);
    if below.expr is Some {
        found_stays_in(children, offset, below);
    } else {
        walk_is_innermost(children, offset, below);
    }
    if let NodeDetail::Expr { .. } = node.detail {
        let in_call = Finding { call: Some(&node), ..s };
        walk_is_innermost(children, offset, in_call);
        if any_around(children, offset) {
            walk_finds(children, offset, s);
            walk_finds(children, offset, in_call);
        }
    }
}

proof fn walk_is_innermost(children: Seq<AstNode>, offset: u32, s: Finding<'_>)
    requires
        s.expr is None,
    ensures
        walked(children, offset, s).expr matches Some(ExprOrIdent::Expr(e)) ==> !any_around(
            e.children@,
            offset,
        ),
    decreases children,
{
    if children.len() > 0 {
        let front = walked(children.drop_last(), offset, s);
        walk_is_innermost(children.drop_last(), offset, s);
        if front.expr is Some {
            found_stays(children.last(), offset, front);
        } else {
            found_is_innermost(children.last(), offset, front);
        }
    }
}

} // verus!
