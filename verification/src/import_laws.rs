//! Which of its names an import statement asks for.
use vstd::prelude::*;
use vstd::utf8::encode_utf8;

use crate::ast_nodes::{AstNode, Identifier, ImportStmt, NodeDetail};
use crate::evaluation::TextRange;
use crate::import_query::{alias_at, dot_from, dot_is_first, last_part_is_last, last_part, module_query, query_at, QueryView, Resolver};

verus! {

/// Whether the cursor is within a range: the end is not.
pub open spec fn within(range: TextRange, offset: u32) -> bool {
    range.start <= offset < range.end
}

/// Whether `node` is an imported name with the cursor within it, alias included.
pub open spec fn is_around(node: AstNode, offset: u32) -> bool {
    node.detail is Alias && within(node.range, offset)
}

/// Whether `node` is an imported name with the cursor within the name proper or its alias.
pub open spec fn is_under(node: AstNode, offset: u32) -> bool {
    node.detail matches NodeDetail::Alias { name, asname } && (within(name.range, offset) || (asname
        is Some && within(asname->0.range, offset)))
}

/// Whether the name fits its range: all positions in it are of 32 bits, and a cursor within it is
/// not past its text.
pub open spec fn is_placed(name: Identifier, offset: u32) -> bool {
    let length = encode_utf8(name.id@).len();
    &&& name.range.start + length <= u32::MAX
    &&& within(name.range, offset) ==> offset - name.range.start <= length
}

/// Whether there is a dot in the name at or behind the cursor.
pub open spec fn has_dot_ahead(name: Identifier, offset: u32) -> bool {
    let bytes = encode_utf8(name.id@);
    exists|i: int|
        offset - name.range.start <= i < bytes.len() && 0 <= i && #[trigger] bytes[i] == 46
}

/// Whether a query is for the part of a name that the cursor stands on, as a module: the path
/// ends before the first dot at or behind the cursor, and the range starts behind the dot before
/// that one, or with the name.
pub open spec fn asks_for_part(query: QueryView, name: Identifier, offset: u32) -> bool {
    let bytes = encode_utf8(name.id@);
    let start = query.range.start - name.range.start;
    let end = query.range.end - name.range.start;
    &&& query.range.start <= offset <= query.range.end
    &&& 0 <= start <= end < bytes.len()
    &&& query.path == bytes.take(end)
    &&& bytes[end] == 46
    &&& start > 0 ==> bytes[start - 1] == 46
    &&& forall|i: int| start <= i < end ==> bytes[i] != 46
    &&& query.resolver == Resolver::FromStmt
}

/// Whether a query is for what an imported name asks for at the cursor: before its last part the
/// module up to that part, on its last part or its alias the import itself, under its full name.
pub open spec fn asks_for_name(query: QueryView, node: AstNode, offset: u32) -> bool {
    match node.detail {
        NodeDetail::Alias { name, asname } => {
            let resolver = Resolver::ImportStmt { name_range: name.range, alias_range: node.range };
            if within(name.range, offset) && has_dot_ahead(name, offset) {
                asks_for_part(query, name, offset)
            } else if within(name.range, offset) {
                &&& query.path == encode_utf8(name.id@)
                &&& query.range == name.range
                &&& query.resolver == resolver
            } else {
                &&& asname is Some && within(asname->0.range, offset)
                &&& query.path == encode_utf8(name.id@)
                &&& query.range == asname->0.range
                &&& query.resolver == resolver
            }
        },
        _ => false,
    }
}

proof fn alias_is_first(nodes: Seq<AstNode>, offset: u32)
    ensures
        alias_at(nodes, offset) is Some <==> exists|i: int|
            0 <= i < nodes.len() && is_around(#[trigger] nodes[i], offset),
        forall|i: int|
            0 <= i < nodes.len() && is_around(#[trigger] nodes[i], offset) && (forall|j: int|
                0 <= j < i ==> !is_around(#[trigger] nodes[j], offset)) ==> alias_at(nodes, offset)
                == Some(nodes[i]),
    decreases nodes.len(),
{
    if nodes.len() > 0 {
        let front = nodes.drop_last();
        alias_is_first(front, offset);
        assert forall|i: int| 0 <= i < front.len() implies front[i] == #[trigger] nodes[i] by {}
        assert(nodes[nodes.len() - 1] == nodes.last());
        if alias_at(front, offset) is Some {
            let i = choose|i: int| 0 <= i < front.len() && is_around(#[trigger] front[i], offset);
            assert(is_around(nodes[i], offset));
        }
        assert forall|i: int|
            0 <= i < nodes.len() && is_around(#[trigger] nodes[i], offset) && (forall|j: int|
                0 <= j < i ==> !is_around(#[trigger] nodes[j], offset)) implies alias_at(
            nodes,
            offset,
        ) == Some(nodes[i]) by {
            if i < front.len() {
                assert(is_around(front[i], offset));
                assert forall|j: int| 0 <= j < i implies !is_around(
                    #[trigger] front[j],
                    offset,
                ) by {
                    assert(!is_around(nodes[j], offset));
                }
            } else if alias_at(front, offset) is Some {
                let j = choose|j: int|
                    0 <= j < front.len() && is_around(#[trigger] front[j], offset);
                assert(is_around(nodes[j], offset));
            }
        }
    }
}

proof fn part_is_asked_for(name: Identifier, offset: u32)
    requires
        within(name.range, offset),
        is_placed(name, offset),
    ensures
        match module_query(name, offset) {
            Some(query) => has_dot_ahead(name, offset) && asks_for_part(query, name, offset),
            None => !has_dot_ahead(name, offset),
        },
{
    let bytes = encode_utf8(name.id@);
    let cursor = offset - name.range.start;
    let dot = dot_from(bytes, cursor);
    dot_is_first(bytes, cursor);
    if dot < bytes.len() {
        let path = bytes.take(dot);
        last_part_is_last(path);
        let start = last_part(path);
        assert forall|i: int| start <= i < dot implies bytes[i] != 46 by {
            assert(path[i] == bytes[i]);
        }
        if start > 0 {
            assert(path[start - 1] == bytes[start - 1]);
            assert(start - 1 < cursor);
        }
        assert(bytes[dot] == 46);
    }
}

/// An `import` statement asks for what the first name around the cursor asks for; if there is no
/// such name, or the cursor is neither in its name proper nor in its alias, for nothing.
pub proof fn first_name_decides(stmt: AstNode, offset: u32, i: int)
    requires
        stmt.detail matches NodeDetail::Stmt { import: ImportStmt::Import, .. },
        0 <= i < stmt.children@.len(),
        is_around(stmt.children@[i], offset),
        forall|j: int| 0 <= j < i ==> !is_around(#[trigger] stmt.children@[j], offset),
        is_placed(stmt.children@[i].detail->Alias_name, offset),
    ensures
        match query_at(stmt, offset) {
            Some(query) => asks_for_name(query, stmt.children@[i], offset),
            None => !is_under(stmt.children@[i], offset),
        },
{
    alias_is_first(stmt.children@, offset);
    let name = stmt.children@[i].detail->Alias_name;
    if within(name.range, offset) {
        part_is_asked_for(name, offset);
    }
}

/// An `import` statement whose names stand apart from each other, each around its own name and
/// alias, asks for the first name that the cursor is within, whichever position that one has. It
/// asks for nothing only if the cursor is within none.
pub proof fn name_under_cursor_is_asked_for(stmt: AstNode, offset: u32)
    requires
        stmt.detail matches NodeDetail::Stmt { import: ImportStmt::Import, .. },
        forall|i: int|
            0 <= i < stmt.children@.len() && is_under(#[trigger] stmt.children@[i], offset)
                ==> is_around(stmt.children@[i], offset) && is_placed(
                stmt.children@[i].detail->Alias_name,
                offset,
            ),
        forall|i: int, j: int|
            0 <= i < j < stmt.children@.len() && is_around(#[trigger] stmt.children@[i], offset)
                ==> !is_around(#[trigger] stmt.children@[j], offset),
    ensures
        query_at(stmt, offset) is Some <==> exists|i: int|
            0 <= i < stmt.children@.len() && is_under(#[trigger] stmt.children@[i], offset),
        forall|i: int|
            0 <= i < stmt.children@.len() && is_under(#[trigger] stmt.children@[i], offset) && (
            forall|j: int| 0 <= j < i ==> !is_under(#[trigger] stmt.children@[j], offset))
                ==> asks_for_name(query_at(stmt, offset)->0, stmt.children@[i], offset),
{
    let nodes = stmt.children@;
    alias_is_first(nodes, offset);
    assert forall|i: int| 0 <= i < nodes.len() && is_under(#[trigger] nodes[i], offset) implies {
        &&& query_at(stmt, offset) is Some
        &&& asks_for_name(query_at(stmt, offset)->0, nodes[i], offset)
    } by {
        assert(is_around(nodes[i], offset));
        assert forall|j: int| 0 <= j < i implies !is_around(#[trigger] nodes[j], offset) by {
            if is_around(nodes[j], offset) {
                assert(!is_around(nodes[i], offset));
            }
        }
        first_name_decides(stmt, offset, i);
    }
    if query_at(stmt, offset) is Some {
        let i = choose|i: int| 0 <= i < nodes.len() && is_around(#[trigger] nodes[i], offset);
        assert forall|j: int| 0 <= j < i implies !is_around(#[trigger] nodes[j], offset) by {
            if is_around(nodes[j], offset) {
                assert(!is_around(nodes[i], offset));
            }
        }
        assert(alias_at(nodes, offset) == Some(nodes[i]));
        assert(is_under(nodes[i], offset));
    }
}

/// A `from` statement asks for its module, up to the part that the cursor stands on, where the
/// cursor is within it; and for nothing elsewhere.
pub proof fn module_under_cursor_is_asked_for(stmt: AstNode, module: Identifier, offset: u32)
    requires
        stmt.detail matches NodeDetail::Stmt { import: ImportStmt::ImportFrom(Some(m)), .. } && m
            == module,
        is_placed(module, offset),
    ensures
        query_at(stmt, offset) is Some <==> within(module.range, offset),
        query_at(stmt, offset) matches Some(query) ==> query.resolver == Resolver::FromStmt && if
        has_dot_ahead(module, offset) {
            asks_for_part(query, module, offset)
        } else {
            query.path == encode_utf8(module.id@) && query.range == module.range
        },
{
    if within(module.range, offset) {
        part_is_asked_for(module, offset);
    }
}

/// No other node asks for a path.
pub proof fn only_imports_ask(node: AstNode, offset: u32)
    requires
        !(node.detail matches NodeDetail::Stmt { import: ImportStmt::Import, .. }),
        !(node.detail matches NodeDetail::Stmt { import: ImportStmt::ImportFrom(Some(_)), .. }),
    ensures
        query_at(node, offset) is None,
{
}

} // verus!
