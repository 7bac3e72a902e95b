//! Python syntax trees, and the search for what stands under a cursor.
use vstd::prelude::*;

use crate::evaluation::TextRange;

verus! {

/// A name written in a file.
#[derive(Debug)]
pub struct Identifier {
    pub id: String,
    pub range: TextRange,
}

/// What a statement imports.
#[derive(Debug)]
pub enum ImportStmt {
    /// Nothing: it is no import.
    NoImport,
    /// The names below it, as in `import a.b, c`.
    Import,
    /// Names of a module, as in `from a.b import c`; no module in `from . import c`.
    ImportFrom(Option<Identifier>),
}

/// What only nodes of one kind carry.
#[derive(Debug)]
pub enum NodeDetail {
    /// A statement, with the names that it writes itself: that of a function or a class,
    /// those of a `global` or a `nonlocal`.
    Stmt { idents: Vec<Identifier>, import: ImportStmt },
    /// An expression; of a call, the range of its arguments.
    Expr { arguments: Option<TextRange> },
    /// An imported name.
    Alias { name: Identifier, asname: Option<Identifier> },
    /// An `except` clause, with the name that it binds.
    ExceptHandler { bound: Option<Identifier> },
    /// A parameter of a function.
    Parameter { name: Identifier },
    /// An argument of a call that is passed by name.
    Keyword { arg: Option<Identifier> },
    /// A field of a class pattern.
    PatternKeyword { attr: Identifier },
    /// A parameter of a generic function or class.
    TypeParam { name: Identifier },
    /// A pattern, with the name that it binds.
    Pattern { bound: Option<Identifier> },
}

/// A node of a syntax tree. `children` are in the order in which they are evaluated.
#[derive(Debug)]
pub struct AstNode {
    /// Tells the node apart from the others of its file.
    pub id: u32,
    pub range: TextRange,
    pub detail: NodeDetail,
    pub children: Vec<AstNode>,
}

/// What a cursor stands on.
#[derive(Clone, Copy, Debug)]
pub enum ExprOrIdent<'a> {
    Expr(&'a AstNode),
    Ident(&'a Identifier),
    Parameter(&'a AstNode),
}

impl<'a> ExprOrIdent<'a> {
    /// The range of the expression, the name or the whole parameter.
    pub open spec fn text_range(self) -> TextRange {
        match self {
            ExprOrIdent::Expr(node) => node.range,
            ExprOrIdent::Ident(ident) => ident.range,
            ExprOrIdent::Parameter(node) => node.range,
        }
    }

    /// The range of the expression, the name or the whole parameter.
    pub fn range(&self) -> (r: TextRange)
        ensures
            r == self.text_range(),
    {
        match self {
            ExprOrIdent::Expr(node) => node.range,
            ExprOrIdent::Ident(ident) => ident.range,
            ExprOrIdent::Parameter(node) => node.range,
        }
    }
}

/// What a search has come to: what the cursor stands on, and the last call that was met
/// with the cursor in its arguments.
pub struct Finding<'a> {
    pub expr: Option<ExprOrIdent<'a>>,
    pub call: Option<&'a AstNode>,
}

/// Nothing found yet.
pub open spec fn nothing_found<'a>() -> Finding<'a> {
    Finding { expr: None, call: None }
}

/// What has been found, with `ident` in place of what the cursor stands on if it stands on
/// `ident`.
pub open spec fn with_ident<'a>(ident: Identifier, offset: u32, s: Finding<'a>) -> Finding<'a> {
    if ident.range.holds(offset) {
        Finding { expr: Some(ExprOrIdent::Ident(&ident)), ..s }
    } else {
        s
    }
}

/// The same for a name that may be missing.
pub open spec fn with_optional<'a>(
    ident: Option<Identifier>,
    offset: u32,
    s: Finding<'a>,
) -> Finding<'a> {
    match ident {
        Some(ident) => with_ident(ident, offset, s),
        None => s,
    }
}

/// The first of the names that the cursor stands on.
pub open spec fn first_ident(idents: Seq<Identifier>, offset: u32) -> Option<Identifier>
    decreases idents.len(),
{
    if idents.len() == 0 {
        None
    } else {
        match first_ident(idents.drop_last(), offset) {
            Some(ident) => Some(ident),
            None => if idents.last().range.holds(offset) {
                Some(idents.last())
            } else {
                None
            },
        }
    }
}

/// What has been found after the nodes were visited in turn.
pub open spec fn walked<'a>(children: Seq<AstNode>, offset: u32, s: Finding<'a>) -> Finding<'a>
    decreases children,
{
    if children.len() == 0 {
        s
    } else {
        visited(children.last(), offset, walked(children.drop_last(), offset, s))
    }
}

/// What has been found after `node` was visited.
///
/// Nodes below come first: what one of them claims, the node does not. An expression around
/// the cursor claims itself, every other node a name of its own that the cursor stands on.
/// Generic parameters and patterns under the cursor are skipped once something was
/// found; before that, their own name goes before what stands below. Patterns elsewhere are
/// skipped.
pub open spec fn visited<'a>(node: AstNode, offset: u32, s: Finding<'a>) -> Finding<'a>
    decreases node,
{
    match node.detail {
        NodeDetail::Expr { arguments } => if node.range.holds(offset) {
            let in_call = if arguments is Some && arguments->0.holds(offset) {
                Finding { call: Some(&node), ..s }
            } else {
                s
            };
            let below = walked(node.children@, offset, in_call);
            if below.expr is None {
                Finding { expr: Some(ExprOrIdent::Expr(&node)), ..below }
            } else {
                below
            }
        } else {
            walked(node.children@, offset, s)
        },
        NodeDetail::Alias { name, asname } => {
            let below = walked(node.children@, offset, s);
            if below.expr is Some {
                below
            } else if name.range.holds(offset) {
                with_ident(name, offset, below)
            } else {
                with_optional(asname, offset, below)
            }
        },
        NodeDetail::ExceptHandler { bound } => {
            let below = walked(node.children@, offset, s);
            if below.expr is None {
                with_optional(bound, offset, below)
            } else {
                walked(node.children@, offset, below)
            }
        },
        NodeDetail::Parameter { name } => {
            let below = walked(node.children@, offset, s);
            if below.expr is None && name.range.holds(offset) {
                Finding { expr: Some(ExprOrIdent::Parameter(&node)), ..below }
            } else {
                below
            }
        },
        NodeDetail::Keyword { arg } => {
            let below = walked(node.children@, offset, s);
            if below.expr is None {
                with_optional(arg, offset, below)
            } else {
                walked(node.children@, offset, below)
            }
        },
        NodeDetail::PatternKeyword { attr } => {
            let below = walked(node.children@, offset, s);
            if below.expr is None && attr.range.holds(offset) {
                with_ident(attr, offset, below)
            } else {
                walked(node.children@, offset, below)
            }
        },
        NodeDetail::TypeParam { name } => if !node.range.holds(offset) {
            walked(node.children@, offset, s)
        } else if s.expr is None {
            with_ident(name, offset, walked(node.children@, offset, s))
        } else {
            s
        },
        NodeDetail::Pattern { bound } => if node.range.holds(offset) && s.expr is None {
            with_optional(bound, offset, walked(node.children@, offset, s))
        } else {
            s
        },
        NodeDetail::Stmt { idents, .. } => {
            let below = walked(node.children@, offset, s);
            if below.expr is None {
                with_optional(first_ident(idents@, offset), offset, below)
            } else {
                below
            }
        },
    }
}

/// Searches a syntax tree for what a cursor stands on.
pub struct ExprFinderVisitor<'a> {
    offset: u32,
    found: Finding<'a>,
}

impl<'a> ExprFinderVisitor<'a> {
    /// What `stmt` holds at `offset`: the expression, name or parameter under the cursor,
    /// and the call in whose arguments the cursor stands.
    pub fn find_expr_at(stmt: &'a AstNode, offset: u32) -> (r: (
        Option<ExprOrIdent<'a>>,
        Option<&'a AstNode>,
    ))
        ensures
            r.0 == visited(*stmt, offset, nothing_found()).expr,
            r.1 == visited(*stmt, offset, nothing_found()).call,
    {
        let mut visitor = ExprFinderVisitor {
            offset,
            found: Finding { expr: None, call: None },
        };
        visitor.visit(stmt);
        (visitor.found.expr, visitor.found.call)
    }

    /// Claims `ident` if the cursor stands on it.
    fn claim(&mut self, ident: &'a Identifier)
        ensures
            final(self).offset == old(self).offset,
            final(self).found == with_ident(*ident, old(self).offset, old(self).found),
    {
        if ident.range.contains(self.offset) {
            self.found.expr = Some(ExprOrIdent::Ident(ident));
        }
    }

    fn claim_optional(&mut self, ident: &'a Option<Identifier>)
        ensures
            final(self).offset == old(self).offset,
            final(self).found == with_optional(*ident, old(self).offset, old(self).found),
    {
        if let Some(ident) = ident {
            self.claim(ident);
        }
    }

    /// Claims the first of the names that the cursor stands on.
    fn claim_first(&mut self, idents: &'a Vec<Identifier>)
        ensures
            final(self).offset == old(self).offset,
            final(self).found == with_optional(
                first_ident(idents@, old(self).offset),
                old(self).offset,
                old(self).found,
            ),
    {
        let mut i: usize = 0;
        assert(idents@.take(0) =~= Seq::empty());
        while i < idents.len()
            invariant
                i <= idents.len(),
                *self == *old(self),
                first_ident(idents@.take(i as int), self.offset) is None,
            decreases idents.len() - i,
        {
            assert(idents@.take(i + 1).drop_last() =~= idents@.take(i as int));
            if idents[i].range.contains(self.offset) {
                proof {
                    first_ident_stays(idents@, self.offset, i + 1);
                }
                self.claim(&idents[i]);
                return;
            }
            i = i + 1;
        }
        assert(idents@.take(i as int) =~= idents@);
    }

    fn walk(&mut self, children: &'a Vec<AstNode>)
        ensures
            final(self).offset == old(self).offset,
            final(self).found == walked(children@, old(self).offset, old(self).found),
        decreases children@,
    {
        let mut i: usize = 0;
        assert(children@.take(0) =~= Seq::empty());
        while i < children.len()
            invariant
                i <= children.len(),
                self.offset == old(self).offset,
                self.found == walked(children@.take(i as int), self.offset, old(self).found),
            decreases children.len() - i,
        {
            assert(children@.take(i + 1).drop_last() =~= children@.take(i as int));
            self.visit(&children[i]);
            i = i + 1;
        }
        assert(children@.take(i as int) =~= children@);
    }

    fn visit(&mut self, node: &'a AstNode)
        ensures
            final(self).offset == old(self).offset,
            final(self).found == visited(*node, old(self).offset, old(self).found),
        decreases node,
    {
        match &node.detail {
            NodeDetail::Expr { arguments } => {
                if node.range.contains(self.offset) {
                    if let Some(range) = arguments {
                        if range.contains(self.offset) {
                            self.found.call = Some(node);
                        }
                    }
                    self.walk(&node.children);
                    if self.found.expr.is_none() {
                        self.found.expr = Some(ExprOrIdent::Expr(node));
                    }
                } else {
                    self.walk(&node.children);
                }
            },
            NodeDetail::Alias { name, asname } => {
                self.walk(&node.children);
                if self.found.expr.is_none() {
                    if name.range.contains(self.offset) {
                        self.claim(name);
                    } else {
                        self.claim_optional(asname);
                    }
                }
            },
            NodeDetail::ExceptHandler { bound } => {
                self.walk(&node.children);
                if self.found.expr.is_none() {
                    self.claim_optional(bound);
                } else {
                    self.walk(&node.children);
                }
            },
            NodeDetail::Parameter { name } => {
                self.walk(&node.children);
                if self.found.expr.is_none() && name.range.contains(self.offset) {
                    self.found.expr = Some(ExprOrIdent::Parameter(node));
                }
            },
            NodeDetail::Keyword { arg } => {
                self.walk(&node.children);
                if self.found.expr.is_none() {
                    self.claim_optional(arg);
                } else {
                    self.walk(&node.children);
                }
            },
            NodeDetail::PatternKeyword { attr } => {
                self.walk(&node.children);
                if self.found.expr.is_none() && attr.range.contains(self.offset) {
                    self.claim(attr);
                } else {
                    self.walk(&node.children);
                }
            },
            NodeDetail::TypeParam { name } => {
                if !node.range.contains(self.offset) {
                    self.walk(&node.children);
                } else if self.found.expr.is_none() {
                    self.walk(&node.children);
                    self.claim(name);
                }
            },
            NodeDetail::Pattern { bound } => {
                if node.range.contains(self.offset) && self.found.expr.is_none() {
                    self.walk(&node.children);
                    self.claim_optional(bound);
                }
            },
            NodeDetail::Stmt { idents, .. } => {
                self.walk(&node.children);
                if self.found.expr.is_none() {
                    self.claim_first(idents);
                }
            },
        }
    }
}

proof fn first_ident_stays(idents: Seq<Identifier>, offset: u32, i: int)
    requires
        0 <= i <= idents.len(),
        first_ident(idents.take(i), offset) is Some,
    ensures
        first_ident(idents, offset) == first_ident(idents.take(i), offset),
    decreases idents.len() - i,
{
    if i == idents.len() {
        assert(idents.take(i) =~= idents);
    } else {
        assert(idents.take(i + 1).drop_last() =~= idents.take(i));
        first_ident_stays(idents, offset, i + 1);
    }
}

} // verus!
