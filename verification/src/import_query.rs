//! What an import statement asks for at a cursor.
//!
//! Names that an import statement writes are not symbols of the file that it stands in, so
//! they are looked up by their dotted path.
use vstd::prelude::*;
use vstd::utf8::{encode_utf8, encode_utf8_valid_utf8, is_char_boundary, is_char_boundary_iff_not_is_continuation_byte, is_continuation_byte};

use crate::ast_nodes::{AstNode, Identifier, ImportStmt, NodeDetail};
use crate::evaluation::TextRange;

verus! {

/// How a path is looked up.
#[derive(Clone, Copy, Debug, PartialEq, Eq, Structural)]
pub enum Resolver {
    /// As the module of a `from` statement, so that variables are refused.
    FromStmt,
    /// As a name of an `import` statement, in full. The ranges are those of the name and of
    /// the whole alias.
    ImportStmt { name_range: TextRange, alias_range: TextRange },
}

/// A path to look up, and the part of the file that it was written in.
#[derive(Debug)]
pub struct ImportQuery {
    pub path: String,
    pub range: TextRange,
    pub resolver: Resolver,
}

/// Mathematical model of an `ImportQuery`; the path is taken as bytes.
#[verifier::ext_equal]
pub struct QueryView {
    pub path: Seq<u8>,
    pub range: TextRange,
    pub resolver: Resolver,
}

impl View for ImportQuery {
    type V = QueryView;

    open spec fn view(&self) -> QueryView {
        QueryView { path: encode_utf8(self.path@), range: self.range, resolver: self.resolver }
    }
}

/// The model of a query that may be missing.
pub open spec fn optional_query(query: Option<ImportQuery>) -> Option<QueryView> {
    match query {
        Some(query) => Some(query@),
        None => None,
    }
}

/// The byte `.`.
pub const DOT: u8 = 46;

/// The position of the first dot at or after `i`; the length if there is none.
pub open spec fn dot_from(bytes: Seq<u8>, i: int) -> int
    decreases bytes.len() - i,
{
    if 0 <= i < bytes.len() && bytes[i] != DOT {
        dot_from(bytes, i + 1)
    } else {
        i
    }
}

/// The position after the last dot; the start if there is none.
pub open spec fn last_part(bytes: Seq<u8>) -> int
    decreases bytes.len(),
{
    if bytes.len() == 0 || bytes.last() == DOT {
        bytes.len() as int
    } else {
        last_part(bytes.drop_last())
    }
}

/// Whether the cursor, where it stands in `name`, stands between two of its characters, and
/// all positions in the name fit into 32 bits.
pub open spec fn can_be_cut(name: Identifier, offset: u32) -> bool {
    name.range.holds(offset) ==> {
        let bytes = encode_utf8(name.id@);
        &&& is_char_boundary(bytes, offset - name.range.start)
        &&& offset - name.range.start <= bytes.len()
        &&& name.range.start + bytes.len() <= u32::MAX
    }
}

/// The path up to the part that the cursor stands on, where that is not the last one: it is
/// looked up as a module.
pub open spec fn module_query(name: Identifier, offset: u32) -> Option<QueryView> {
    let bytes = encode_utf8(name.id@);
    let dot = dot_from(bytes, offset - name.range.start);
    if dot < bytes.len() {
        Some(
            QueryView {
                path: bytes.take(dot),
                range: TextRange {
                    start: (name.range.start + last_part(bytes.take(dot))) as u32,
                    end: (name.range.start + dot) as u32,
                },
                resolver: Resolver::FromStmt,
            },
        )
    } else {
        None
    }
}

/// What the name of an `import` statement asks for: up to the last part a module, on the
/// last part or on the alias the import itself, under its full name.
pub open spec fn alias_query(
    name: Identifier,
    asname: Option<Identifier>,
    alias_range: TextRange,
    offset: u32,
) -> Option<QueryView> {
    let resolver = Resolver::ImportStmt { name_range: name.range, alias_range };
    if name.range.holds(offset) {
        match module_query(name, offset) {
            Some(query) => Some(query),
            None => Some(
                QueryView { path: encode_utf8(name.id@), range: name.range, resolver },
            ),
        }
    } else if asname is Some && asname->0.range.holds(offset) {
        Some(QueryView { path: encode_utf8(name.id@), range: asname->0.range, resolver })
    } else {
        None
    }
}

/// Whether `node` is an imported name around the cursor.
pub open spec fn is_alias_at(node: AstNode, offset: u32) -> bool {
    node.detail is Alias && node.range.holds(offset)
}

/// The first imported name around the cursor.
pub open spec fn alias_at(nodes: Seq<AstNode>, offset: u32) -> Option<AstNode>
    decreases nodes.len(),
{
    if nodes.len() == 0 {
        None
    } else if alias_at(nodes.drop_last(), offset) is Some {
        alias_at(nodes.drop_last(), offset)
    } else if is_alias_at(nodes.last(), offset) {
        Some(nodes.last())
    } else {
        None
    }
}

/// The path that `stmt` asks for at the cursor. Of a `from` statement only the module counts:
/// the names become visible in the file.
pub open spec fn query_at(stmt: AstNode, offset: u32) -> Option<QueryView> {
    match stmt.detail {
        NodeDetail::Stmt { import: ImportStmt::Import, .. } => match alias_at(
            stmt.children@,
            offset,
        ) {
            Some(alias) => alias_query(
                alias.detail->Alias_name,
                alias.detail->asname,
                alias.range,
                offset,
            ),
            None => None,
        },
        NodeDetail::Stmt { import: ImportStmt::ImportFrom(Some(module)), .. } =>
        if module.range.holds(offset) {
            match module_query(module, offset) {
                Some(query) => Some(query),
                None => Some(
                    QueryView {
                        path: encode_utf8(module.id@),
                        range: module.range,
                        resolver: Resolver::FromStmt,
                    },
                ),
            }
        } else {
            None
        },
        _ => None,
    }
}

/// Whether the name that decides what `stmt` asks for can be cut at the cursor.
pub open spec fn can_be_queried(stmt: AstNode, offset: u32) -> bool {
    match stmt.detail {
        NodeDetail::Stmt { import: ImportStmt::Import, .. } => match alias_at(
            stmt.children@,
            offset,
        ) {
            Some(alias) => can_be_cut(alias.detail->Alias_name, offset),
            None => true,
        },
        NodeDetail::Stmt { import: ImportStmt::ImportFrom(Some(module)), .. } => can_be_cut(
            module,
            offset,
        ),
        _ => true,
    }
}

proof fn alias_stays(nodes: Seq<AstNode>, offset: u32, i: int)
    requires
        0 <= i <= nodes.len(),
        alias_at(nodes.take(i), offset) is Some,
    ensures
        alias_at(nodes, offset) == alias_at(nodes.take(i), offset),
    decreases nodes.len() - i,
{
    if i == nodes.len() {
        assert(nodes.take(i) =~= nodes);
    } else {
        assert(nodes.take(i + 1).drop_last() =~= nodes.take(i));
        alias_stays(nodes, offset, i + 1);
    }
}

/// The first dot at or after `i` is one, and none stands between.
pub proof fn dot_is_first(bytes: Seq<u8>, i: int)
    requires
        0 <= i <= bytes.len(),
    ensures
        i <= dot_from(bytes, i) <= bytes.len(),
        dot_from(bytes, i) < bytes.len() ==> bytes[dot_from(bytes, i)] == DOT,
        forall|j: int| i <= j < dot_from(bytes, i) ==> bytes[j] != DOT,
    decreases bytes.len() - i,
{
    if i < bytes.len() && bytes[i] != DOT {
        dot_is_first(bytes, i + 1);
    }
}

/// The last part starts after a dot, or at the start, and holds none.
pub proof fn last_part_is_last(bytes: Seq<u8>)
    ensures
        0 <= last_part(bytes) <= bytes.len(),
        last_part(bytes) > 0 ==> bytes[last_part(bytes) - 1] == DOT,
        forall|j: int| last_part(bytes) <= j < bytes.len() ==> bytes[j] != DOT,
    decreases bytes.len(),
{
    if bytes.len() > 0 && bytes.last() != DOT {
        let front = bytes.drop_last();
        last_part_is_last(front);
        assert forall|j: int| last_part(bytes) <= j < bytes.len() implies bytes[j] != DOT by {
            assert(j < front.len() ==> front[j] == bytes[j]);
        }
    }
}

/// The part that is looked up as a module is a whole part of the name, and the cursor stands
/// on it or on the dot behind it.
pub proof fn queried_part_is_whole(name: Identifier, offset: u32)
    requires
        name.range.holds(offset),
        can_be_cut(name, offset),
        module_query(name, offset) is Some,
    ensures
        ({
            let bytes = encode_utf8(name.id@);
            let query = module_query(name, offset)->0;
            let start = query.range.start - name.range.start;
            let end = query.range.end - name.range.start;
            &&& query.range.start <= offset <= query.range.end
            &&& 0 <= start <= end < bytes.len()
            &&& query.path == bytes.take(end)
            &&& bytes[end] == DOT
            &&& start > 0 ==> bytes[start - 1] == DOT
            &&& forall|i: int| start <= i < end ==> bytes[i] != DOT
        }),
{
    let bytes = encode_utf8(name.id@);
    let cursor = offset - name.range.start;
    let dot = dot_from(bytes, cursor);
    dot_is_first(bytes, cursor);
    let path = bytes.take(dot);
    last_part_is_last(path);
    let start = last_part(path);
    assert forall|i: int| start <= i < dot implies bytes[i] != DOT by {
        assert(path[i] == bytes[i]);
    }
    if start > 0 {
        assert(path[start - 1] == bytes[start - 1]);
        assert(start - 1 < cursor);
    }
}

impl Identifier {
    /// Whether the name can be cut at the cursor.
    pub fn is_cuttable(&self, offset: u32) -> (r: bool)
        ensures
            r == can_be_cut(*self, offset),
    {
        if !self.range.contains(offset) {
            return true;
        }
        let text = self.id.as_str();
        let length: usize = text.as_bytes().len();
        let cursor: usize = (offset - self.range.start) as usize;
        let room: u32 = u32::MAX - self.range.start;
        cursor <= length && length as u64 <= room as u64 && text.is_char_boundary(cursor)
    }

    /// The path up to the part that the cursor stands on, where that is not the last one.
    fn module_query(&self, offset: u32) -> (r: Option<ImportQuery>)
        requires
            self.range.holds(offset),
            can_be_cut(*self, offset),
        ensures
            optional_query(r) == module_query(*self, offset),
    {
        let text = self.id.as_str();
        let bytes = text.as_bytes();
        let cursor: usize = (offset - self.range.start) as usize;
        let ghost all = encode_utf8(self.id@);
        let mut dot: usize = cursor;
        while dot < bytes.len() && bytes[dot] != DOT
            invariant
                bytes@ == all,
                cursor <= dot <= bytes.len(),
                dot_from(all, cursor as int) == dot_from(all, dot as int),
            decreases bytes.len() - dot,
        {
            dot = dot + 1;
        }
        if dot == bytes.len() {
            return None;
        }
        let mut start: usize = dot;
        let ghost path = all.take(dot as int);
        assert(path.take(dot as int) =~= path);
        while start > 0 && bytes[start - 1] != DOT
            invariant
                bytes@ == all,
                start <= dot < bytes.len(),
                path == all.take(dot as int),
                last_part(path) == last_part(path.take(start as int)),
            decreases start,
        {
            assert(path.take(start as int).drop_last() =~= path.take(start - 1));
            assert(path.take(start as int).last() == all[start - 1]);
            start = start - 1;
        }
        proof {
            if start > 0 {
                assert(path.take(start as int).last() == all[start - 1]);
            }
            encode_utf8_valid_utf8(self.id@);
            is_char_boundary_iff_not_is_continuation_byte(all, dot as int);
            assert(!is_continuation_byte(46u8)) by (bit_vector);
        }
        let (front, _) = text.split_at(dot);
        assert(all.subrange(0, dot as int) =~= all.take(dot as int));
        Some(
            ImportQuery {
                path: front.to_owned(),
                range: TextRange {
                    start: self.range.start + start as u32,
                    end: self.range.start + dot as u32,
                },
                resolver: Resolver::FromStmt,
            },
        )
    }
}

/// The position of the first imported name around the cursor; the length if there is none.
fn find_alias(nodes: &Vec<AstNode>, offset: u32) -> (r: usize)
    ensures
        r <= nodes.len(),
        alias_at(nodes@, offset) == if r < nodes.len() {
            Some(nodes@[r as int])
        } else {
            None
        },
        r < nodes.len() ==> is_alias_at(nodes@[r as int], offset),
{
    let mut i: usize = 0;
    assert(nodes@.take(0) =~= Seq::empty());
    while i < nodes.len()
        invariant
            i <= nodes.len(),
            alias_at(nodes@.take(i as int), offset) is None,
        decreases nodes.len() - i,
    {
        assert(nodes@.take(i + 1).drop_last() =~= nodes@.take(i as int));
        let is_alias = match &nodes[i].detail {
            NodeDetail::Alias { .. } => true,
            _ => false,
        };
        if is_alias && nodes[i].range.contains(offset) {
            proof {
                alias_stays(nodes@, offset, i + 1);
            }
            return i;
        }
        i = i + 1;
    }
    assert(nodes@.take(i as int) =~= nodes@);
    i
}

/// Whether the name that decides what `stmt` asks for can be cut at the cursor.
pub fn is_queryable(stmt: &AstNode, offset: u32) -> (r: bool)
    ensures
        r == can_be_queried(*stmt, offset),
{
    match &stmt.detail {
        NodeDetail::Stmt { import: ImportStmt::Import, .. } => {
            let i: usize = find_alias(&stmt.children, offset);
            if i < stmt.children.len() {
                if let NodeDetail::Alias { name, .. } = &stmt.children[i].detail {
                    return name.is_cuttable(offset);
                }
            }
            true
        },
        NodeDetail::Stmt { import: ImportStmt::ImportFrom(Some(module)), .. } => {
            module.is_cuttable(offset)
        },
        _ => true,
    }
}

/// The path that `stmt` asks for at the cursor.
pub fn import_query(stmt: &AstNode, offset: u32) -> (r: Option<ImportQuery>)
    requires
        can_be_queried(*stmt, offset),
    ensures
        optional_query(r) == query_at(*stmt, offset),
{
    match &stmt.detail {
        NodeDetail::Stmt { import: ImportStmt::Import, .. } => {
            let i: usize = find_alias(&stmt.children, offset);
            if i < stmt.children.len() {
                let alias = &stmt.children[i];
                if let NodeDetail::Alias { name, asname } = &alias.detail {
                    let resolver = Resolver::ImportStmt {
                        name_range: name.range,
                        alias_range: alias.range,
                    };
                    if name.range.contains(offset) {
                        let partial = name.module_query(offset);
                        if partial.is_some() {
                            return partial;
                        }
                        let path = name.id.as_str().to_owned();
                        return Some(ImportQuery { path, range: name.range, resolver });
                    }
                    if let Some(asname) = asname {
                        if asname.range.contains(offset) {
                            let path = name.id.as_str().to_owned();
                            return Some(ImportQuery { path, range: asname.range, resolver });
                        }
                    }
                }
            }
            None
        },
        NodeDetail::Stmt { import: ImportStmt::ImportFrom(Some(module)), .. } => {
            if !module.range.contains(offset) {
                return None;
            }
            let partial = module.module_query(offset);
            if partial.is_some() {
                return partial;
            }
            let path = module.id.as_str().to_owned();
            Some(ImportQuery { path, range: module.range, resolver: Resolver::FromStmt })
        },
        _ => None,
    }
}

} // verus!
