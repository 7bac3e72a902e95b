//! What the search for the expression under a cursor guarantees of the call around it.
use vstd::prelude::*;

use crate::ast_laws::is_call_around;
use crate::ast_nodes::{first_ident, visited, walked, AstNode, Finding, Identifier, NodeDetail};

verus! {

/// Whether one of the nodes is or holds a call with the cursor in its arguments.
pub open spec fn any_call_in(children: Seq<AstNode>, offset: u32) -> bool
    decreases children,
{
    children.len() > 0 && (any_call_in(children.drop_last(), offset) || call_in(
        children.last(),
        offset,
    ))
}

/// Whether `node` is or holds a call with the cursor in its arguments. A pattern counts only
/// if the cursor stands within it.
pub open spec fn call_in(node: AstNode, offset: u32) -> bool
    decreases node,
{
    match node.detail {
        NodeDetail::Pattern { .. } => node.range.holds(offset) && any_call_in(
            node.children@,
            offset,
        ),
        _ => is_call_around(node, offset) || any_call_in(node.children@, offset),
    }
}

/// Whether the cursor stands on `ident`, where there is one.
pub open spec fn on_optional(ident: Option<Identifier>, offset: u32) -> bool {
    ident is Some && ident->0.range.holds(offset)
}

/// Whether the cursor stands on a name that the node writes itself.
pub open spec fn on_own_name(node: AstNode, offset: u32) -> bool {
    match node.detail {
        NodeDetail::Stmt { idents, .. } => first_ident(idents@, offset) is Some,
        NodeDetail::Expr { .. } => false,
        NodeDetail::Alias { name, asname } => name.range.holds(offset) || on_optional(
            asname,
            offset,
        ),
        NodeDetail::ExceptHandler { bound } => on_optional(bound, offset),
        NodeDetail::Parameter { name } => name.range.holds(offset),
        NodeDetail::Keyword { arg } => on_optional(arg, offset),
        NodeDetail::PatternKeyword { attr } => attr.range.holds(offset),
        NodeDetail::TypeParam { name } => name.range.holds(offset),
        NodeDetail::Pattern { bound } => on_optional(bound, offset),
    }
}

/// Whether the cursor stands on one of the nodes or on something below it.
pub open spec fn any_touched(children: Seq<AstNode>, offset: u32) -> bool
    decreases children,
{
    children.len() > 0 && (any_touched(children.drop_last(), offset) || touched(
        children.last(),
        offset,
    ))
}

/// Whether the cursor stands on `node` or on something below it.
pub open spec fn touched(node: AstNode, offset: u32) -> bool
    decreases node,
{
    ||| node.range.holds(offset)
    ||| on_own_name(node, offset)
    ||| any_touched(node.children@, offset)
}

/// Whether the cursor stands on at most one of the nodes, and on at most one of the siblings
/// everywhere below them.
pub open spec fn all_apart(children: Seq<AstNode>, offset: u32) -> bool
    decreases children,
{
    children.len() > 0 ==> {
        &&& all_apart(children.drop_last(), offset)
        &&& apart(children.last(), offset)
        &&& !(any_touched(children.drop_last(), offset) && touched(children.last(), offset))
    }
}

/// Whether no two siblings below `node` overlap at the cursor.
pub open spec fn apart(node: AstNode, offset: u32) -> bool
    decreases node,
{
    all_apart(node.children@, offset)
}

/// Whether none of the nodes is or holds a pattern or a generic parameter.
pub open spec fn all_plain(children: Seq<AstNode>) -> bool
    decreases children,
{
    children.len() > 0 ==> all_plain(children.drop_last()) && plain(children.last())
}

/// Whether `node` neither is nor holds a pattern or a generic parameter.
pub open spec fn plain(node: AstNode) -> bool
    decreases node,
{
    node.detail !is Pattern && node.detail !is TypeParam && all_plain(node.children@)
}

/// Whether in all of the nodes patterns and generic parameters stand in statements alone.
pub open spec fn all_pythonic(children: Seq<AstNode>) -> bool
    decreases children,
{
    children.len() > 0 ==> all_pythonic(children.drop_last()) && pythonic(children.last())
}

/// Whether patterns and generic parameters stand in statements alone, as Python's syntax has
/// it: none stands below an expression.
pub open spec fn pythonic(node: AstNode) -> bool
    decreases node,
{
    &&& node.detail is Expr ==> all_plain(node.children@)
    &&& all_pythonic(node.children@)
}

/// Whether the call has the cursor in its arguments and holds no other such call.
pub open spec fn is_innermost_call(call: Option<&AstNode>, offset: u32) -> bool {
    &&& call is Some
    &&& is_call_around(*call->0, offset)
    &&& !any_call_in(call->0.children@, offset)
}

proof fn untouched_is_skipped(node: AstNode, offset: u32, s: Finding<'_>)
    requires
        !touched(node, offset),
    ensures
        visited(node, offset, s) == s,
    decreases node,
{
    untouched_are_skipped(node.children@, offset, s);
}

proof fn untouched_are_skipped(children: Seq<AstNode>, offset: u32, s: Finding<'_>)
    requires
        !any_touched(children, offset),
    ensures
        walked(children, offset, s) == s,
    decreases children,
{
    if children.len() > 0 {
        untouched_are_skipped(children.drop_last(), offset, s);
        untouched_is_skipped(children.last(), offset, s);
    }
}

proof fn call_is_touched(node: AstNode, offset: u32)
    requires
        call_in(node, offset),
    ensures
        touched(node, offset),
    decreases node,
{
    if any_call_in(node.children@, offset) {
        calls_are_touched(node.children@, offset);
    }
}

proof fn calls_are_touched(children: Seq<AstNode>, offset: u32)
    requires
        any_call_in(children, offset),
    ensures
        any_touched(children, offset),
    decreases children,
{
    if any_call_in(children.drop_last(), offset) {
        calls_are_touched(children.drop_last(), offset);
    } else {
        call_is_touched(children.last(), offset);
    }
}

proof fn no_call_is_made_up(node: AstNode, offset: u32, s: Finding<'_>)
    requires
        !call_in(node, offset),
    ensures
        visited(node, offset, s).call == s.call,
    decreases node,
{
    if node.detail !is Pattern || node.range.holds(offset) {
        no_calls_are_made_up(node.children@, offset, s);
        no_calls_are_made_up(node.children@, offset, walked(node.children@, offset, s));
    }
}

proof fn no_calls_are_made_up(children: Seq<AstNode>, offset: u32, s: Finding<'_>)
    requires
        !any_call_in(children, offset),
    ensures
        walked(children, offset, s).call == s.call,
    decreases children,
{
    if children.len() > 0 {
        let front = walked(children.drop_last(), offset, s);
        no_calls_are_made_up(children.drop_last(), offset, s);
        no_call_is_made_up(children.last(), offset, front);
    }
}

proof fn visit_finds_innermost(node: AstNode, offset: u32, s: Finding<'_>)
    requires
        apart(node, offset),
        pythonic(node),
    ensures
        ({
            let call = visited(node, offset, s).call;
            &&& call == s.call || is_innermost_call(call, offset)
            &&& (s.expr is None || plain(node)) && call_in(node, offset) ==> is_innermost_call(
                call,
                offset,
            )
        }),
    decreases node,
{
    let children = node.children@;
    walk_finds_innermost(children, offset, s);
    walk_finds_innermost(children, offset, walked(children, offset, s));
    if is_call_around(node, offset) {
        let in_call = Finding { call: Some(&node), ..s };
        walk_finds_innermost(children, offset, in_call);
        if !any_call_in(children, offset) {
            no_calls_are_made_up(children, offset, in_call);
        }
    }
}

proof fn walk_finds_innermost(children: Seq<AstNode>, offset: u32, s: Finding<'_>)
    requires
        all_apart(children, offset),
        all_pythonic(children),
    ensures
        ({
            let call = walked(children, offset, s).call;
            &&& call == s.call || is_innermost_call(call, offset)
            &&& (s.expr is None || all_plain(children)) && any_call_in(children, offset)
                ==> is_innermost_call(call, offset)
        }),
    decreases children,
{
    if children.len() > 0 {
        let rest = children.drop_last();
        let last = children.last();
        let front = walked(rest, offset, s);
        walk_finds_innermost(rest, offset, s);
        visit_finds_innermost(last, offset, front);
        if call_in(last, offset) {
            call_is_touched(last, offset);
            untouched_are_skipped(rest, offset, s);
        } else {
            no_call_is_made_up(last, offset, front);
        }
    }
}

/// Where the cursor stands in the arguments of a call, the innermost such call is found, if no
/// siblings overlap at the cursor; where it stands in none, no call is found.
pub proof fn innermost_call_is_found(node: AstNode, offset: u32, s: Finding<'_>)
    requires
        s.expr is None,
        apart(node, offset),
        pythonic(node),
    ensures
        call_in(node, offset) ==> is_innermost_call(visited(node, offset, s).call, offset),
        !call_in(node, offset) ==> visited(node, offset, s).call == s.call,
{
    visit_finds_innermost(node, offset, s);
    if !call_in(node, offset) {
        no_call_is_made_up(node, offset, s);
    }
}

} // verus!
