//! Parsing of XML data files.
use roxmltree::Document;
use std::ops::Range;
use vstd::prelude::*;

use crate::xml_node::{NodeKind, XmlAttribute, XmlNode};

verus! {

/// A node of a document without what stands below it.
pub struct FlatNode {
    /// How many nodes lead from the document to this one, itself included.
    pub depth: usize,
    pub kind: NodeKind,
    /// Name of an element, without prefix.
    pub tag: String,
    pub attributes: Vec<XmlAttribute>,
    /// Characters of a text or a comment; of an element, those of its first child if
    /// that is a text.
    pub content: Option<String>,
    pub range: Range<usize>,
}

/// Mathematical model of an `XmlAttribute`.
#[verifier::ext_equal]
pub struct AttributeView {
    pub name: Seq<char>,
    pub value: Seq<char>,
    pub range: Range<usize>,
    pub value_range: Range<usize>,
}

impl View for XmlAttribute {
    type V = AttributeView;

    open spec fn view(&self) -> AttributeView {
        AttributeView {
            name: self.name@,
            value: self.value@,
            range: self.range,
            value_range: self.value_range,
        }
    }
}

/// The models of a list of attributes.
pub open spec fn attribute_views(v: Seq<XmlAttribute>) -> Seq<AttributeView> {
    v.map_values(|a: XmlAttribute| a@)
}

/// Mathematical model of a `FlatNode`.
#[verifier::ext_equal]
pub struct FlatView {
    pub depth: int,
    pub kind: NodeKind,
    pub tag: Seq<char>,
    pub attributes: Seq<AttributeView>,
    pub content: Option<Seq<char>>,
    pub range: Range<usize>,
}

impl View for FlatNode {
    type V = FlatView;

    open spec fn view(&self) -> FlatView {
        FlatView {
            depth: self.depth as int,
            kind: self.kind,
            tag: self.tag@,
            attributes: attribute_views(self.attributes@),
            content: match self.content {
                Some(text) => Some(text@),
                None => None,
            },
            range: self.range,
        }
    }
}

/// The models of a list of nodes.
pub open spec fn flat_views(v: Seq<FlatNode>) -> Seq<FlatView> {
    v.map_values(|n: FlatNode| n@)
}

/// The nodes from the root element of a document on, each before those below it; nothing
/// if the text is no document.
pub uninterp spec fn document_nodes(text: Seq<char>) -> Option<Seq<FlatView>>;

/// Whether the nodes can be those of one tree, each before those below it: the first is the
/// root, and every other one stands below the one before it or beside one of that one's
/// ancestors.
pub open spec fn is_listing(nodes: Seq<FlatView>) -> bool {
    &&& nodes.len() > 0
    &&& forall|i: int|
        0 < i < nodes.len() ==> nodes[0].depth < (#[trigger] nodes[i]).depth <= nodes[i - 1].depth
            + 1
}

/// Calls `Document::parse` and lists what `Node::descendants` gives from the root
/// element on: that element and all nodes below it, each before those below it, so the list
/// is that of one tree. Attributes carry what `Attribute::range` and `Attribute::range_value`
/// give. What the nodes are is a function of the text alone.
#[verifier::external_body]
fn parse_document(text: &str) -> (r: Option<Vec<FlatNode>>)
    ensures
        r is Some == document_nodes(text@) is Some,
        r is Some ==> flat_views(r->0@) == document_nodes(text@)->0,
        r is Some ==> is_listing(flat_views(r->0@)),
{
    let document = Document::parse(text).ok()?;
    let nodes = document.root_element().descendants();
    Some(nodes.map(|n| FlatNode {
        depth: n.ancestors().count(),
        kind: kind_of(n.is_element(), n.is_text(), n.is_comment()),
        tag: n.tag_name().name().to_string(),
        attributes: n.attributes().map(|a| XmlAttribute {
            name: a.name().to_string(),
            value: a.value().to_string(),
            range: a.range(),
            value_range: a.range_value(),
        }).collect(),
        content: n.text().map(String::from),
        range: n.range(),
    }).collect())
}

/// The kind of a node, which is an instruction if it is none of the others.
fn kind_of(is_element: bool, is_text: bool, is_comment: bool) -> (r: NodeKind)
    ensures
        r == if is_element {
            NodeKind::Element
        } else if is_text {
            NodeKind::Text
        } else if is_comment {
            NodeKind::Comment
        } else {
            NodeKind::Instruction
        },
{
    if is_element {
        NodeKind::Element
    } else if is_text {
        NodeKind::Text
    } else if is_comment {
        NodeKind::Comment
    } else {
        NodeKind::Instruction
    }
}

/// What a tree keeps of a node: characters of texts and comments only, as an element has
/// its texts below it.
pub open spec fn kept(node: FlatView) -> FlatView {
    FlatView {
        content: if node.kind == NodeKind::Text || node.kind == NodeKind::Comment {
            match node.content {
                Some(text) => Some(text),
                None => Some(Seq::empty()),
            }
        } else {
            None
        },
        ..node
    }
}

/// The node itself, at `depth`, without what stands below it.
pub open spec fn head(node: XmlNode, depth: int) -> FlatView {
    FlatView {
        depth,
        kind: node.kind,
        tag: node.tag@,
        attributes: attribute_views(node.attributes@),
        content: if node.kind == NodeKind::Text || node.kind == NodeKind::Comment {
            Some(node.content@)
        } else {
            None
        },
        range: node.range,
    }
}

/// The node and all below it, each before those below it.
pub open spec fn listing(node: XmlNode, depth: int) -> Seq<FlatView>
    decreases node,
{
    seq![head(node, depth)] + listings(node.children@, depth + 1)
}

/// The listings of the nodes one after the other.
pub open spec fn listings(nodes: Seq<XmlNode>, depth: int) -> Seq<FlatView>
    decreases nodes,
{
    if nodes.len() == 0 {
        Seq::empty()
    } else {
        listings(nodes.drop_last(), depth) + listing(nodes.last(), depth)
    }
}

/// What the tree of a list of nodes lists: every node as the tree keeps it.
pub open spec fn kept_all(nodes: Seq<FlatView>) -> Seq<FlatView> {
    nodes.map_values(|n: FlatView| kept(n))
}

/// A finished tree and the depth of its root.
struct Pending {
    depth: usize,
    node: XmlNode,
}

/// The listings of the trees, the last one first.
spec fn pending_listing(trees: Seq<Pending>) -> Seq<FlatView>
    decreases trees.len(),
{
    if trees.len() == 0 {
        Seq::empty()
    } else {
        listing(trees.last().node, trees.last().depth as int) + pending_listing(trees.drop_last())
    }
}

/// Whether no tree stands deeper than the one after it.
spec fn unclosed(trees: Seq<Pending>) -> bool {
    forall|i: int, j: int| 0 <= i < j < trees.len() ==> trees[i].depth <= trees[j].depth
}

/// The tree of a node and those below it.
fn tree_of(node: FlatNode, children: Vec<XmlNode>) -> (r: XmlNode)
    ensures
        r.children == children,
        head(r, node.depth as int) == kept(node@),
{
    let mut content = String::new();
    if node.kind == NodeKind::Text || node.kind == NodeKind::Comment {
        if let Some(text) = node.content {
            content = text;
        }
    }
    XmlNode {
        kind: node.kind,
        tag: node.tag,
        attributes: node.attributes,
        content,
        range: node.range,
        children,
    }
}

/// The tree that the nodes list.
///
/// The nodes are taken from the last one back: the trees that were finished since and stand
/// deeper than a node are what stands below it.
pub fn build_tree(nodes: Vec<FlatNode>) -> (r: XmlNode)
    requires
        is_listing(flat_views(nodes@)),
    ensures
        listing(r, nodes@[0].depth as int) == kept_all(flat_views(nodes@)),
{
    let ghost all = nodes@;
    let ghost list = kept_all(flat_views(all));
    let mut rest = nodes;
    let mut trees: Vec<Pending> = Vec::new();
    assert(list.skip(list.len() as int) =~= Seq::empty());
    loop
        invariant
            all == nodes@,
            list == kept_all(flat_views(all)),
            is_listing(flat_views(all)),
            rest@ == all.take(rest@.len() as int),
            rest@.len() <= all.len(),
            pending_listing(trees@) == list.skip(rest@.len() as int),
            unclosed(trees@),
            trees@.len() == 0 <==> rest@.len() == all.len(),
            trees@.len() > 0 ==> trees@.last().depth == all[rest@.len() as int].depth,
            rest@.len() == 0 ==> trees@.len() == 1,
            rest@.len() > 0 ==> forall|i: int|
                0 <= i < trees@.len() ==> (#[trigger] trees@[i]).depth > all[0].depth,
        ensures
            rest@.len() == 0,
        decreases rest@.len(),
    {
        let ghost before = rest@.len() as int;
        match rest.pop() {
            Some(node) => {
                let ghost k = before - 1;
                assert(node == all[k]);
                assert(list[k] == kept(node@));
                let depth: usize = node.depth;
                let mut children: Vec<XmlNode> = Vec::new();
                assert(listings(children@, depth + 1) + pending_listing(trees@) =~= list.skip(
                    before,
                ));
                proof {
                    if before < all.len() {
                        assert(flat_views(all)[before].depth <= flat_views(all)[k].depth + 1);
                    }
                    if k > 0 {
                        assert(flat_views(all)[k].depth > flat_views(all)[0].depth);
                    }
                }
                while trees.len() > 0 && trees[trees.len() - 1].depth > depth
                    invariant
                        listings(children@, depth + 1) + pending_listing(trees@) == list.skip(
                            before,
                        ),
                        unclosed(trees@),
                        trees@.len() > 0 ==> trees@.last().depth <= depth + 1,
                        k >= 0,
                        0 < before <= all.len(),
                        k == before - 1,
                        list.len() == all.len(),
                        forall|i: int|
                            0 <= i < trees@.len() ==> (#[trigger] trees@[i]).depth > all[0].depth,
                    decreases trees@.len(),
                {
                    let ghost earlier = trees@;
                    let ghost done = children@;
                    if let Some(tree) = trees.pop() {
                        children.push(tree.node);
                        assert(children@.drop_last() =~= done);
                        assert(earlier.drop_last() =~= trees@);
                        assert(listings(children@, depth + 1) + pending_listing(trees@)
                            =~= listings(done, depth + 1) + pending_listing(earlier));
                    }
                }
                let tree = tree_of(node, children);
                let ghost below = trees@;
                trees.push(Pending { depth, node: tree });
                assert(trees@.drop_last() =~= below);
                assert(pending_listing(trees@) =~= seq![list[k]] + list.skip(before));
                assert(list.skip(k) =~= seq![list[k]] + list.skip(before));
            },
            None => {
                break;
            },
        }
    }
    proof {
        assert(trees@.drop_last() =~= Seq::empty());
        assert(pending_listing(trees@.drop_last()) =~= Seq::empty());
        assert(pending_listing(trees@) =~= listing(trees@[0].node, trees@[0].depth as int));
        assert(list.skip(0) =~= list);
    }
    let tree = trees.remove(0);
    tree.node
}

/// The root element of the document that `text` holds; nothing if the text is no document.
pub fn parse_xml(text: &str) -> (r: Option<XmlNode>)
    ensures
        match document_nodes(text@) {
            Some(nodes) => r is Some && listing(r->0, nodes[0].depth) == kept_all(nodes),
            None => r is None,
        },
{
    match parse_document(text) {
        Some(nodes) => {
            assert(flat_views(nodes@)[0].depth == nodes@[0].depth);
            Some(build_tree(nodes))
        },
        None => None,
    }
}

/// Whether two trees hold the same nodes in the same places.
pub open spec fn same_tree(a: XmlNode, b: XmlNode) -> bool
    decreases a,
{
    &&& head(a, 0) == head(b, 0)
    &&& a.children@.len() == b.children@.len()
    &&& forall|i: int|
        0 <= i < a.children@.len() ==> same_tree(#[trigger] a.children@[i], b.children@[i])
}

/// The root of a tree is the first node of its listing and stands above all others.
proof fn root_stands_above(node: XmlNode, depth: int)
    ensures
        listing(node, depth).len() > 0,
        listing(node, depth)[0] == head(node, depth),
        forall|i: int|
            0 < i < listing(node, depth).len() ==> (#[trigger] listing(node, depth)[i]).depth
                > depth,
    decreases node,
{
    all_stand_below(node.children@, depth + 1);
}

proof fn all_stand_below(nodes: Seq<XmlNode>, depth: int)
    ensures
        forall|i: int|
            0 <= i < listings(nodes, depth).len() ==> (#[trigger] listings(nodes, depth)[i]).depth
                >= depth,
    decreases nodes,
{
    if nodes.len() > 0 {
        all_stand_below(nodes.drop_last(), depth);
        root_stands_above(nodes.last(), depth);
    }
}

/// A listing tells the whole tree: two trees with the same listing hold the same nodes in the
/// same places.
pub proof fn listing_decides(a: XmlNode, b: XmlNode, depth: int)
    requires
        listing(a, depth) == listing(b, depth),
    ensures
        same_tree(a, b),
    decreases a,
{
    root_stands_above(a, depth);
    root_stands_above(b, depth);
    assert(head(a, 0) == (FlatView { depth: 0, ..head(a, depth) }));
    assert(head(b, 0) == (FlatView { depth: 0, ..head(b, depth) }));
    assert(listings(a.children@, depth + 1) =~= listing(a, depth).skip(1));
    assert(listings(b.children@, depth + 1) =~= listing(b, depth).skip(1));
    listings_decide(a.children@, b.children@, depth + 1);
}

proof fn listings_decide(a: Seq<XmlNode>, b: Seq<XmlNode>, depth: int)
    requires
        listings(a, depth) == listings(b, depth),
    ensures
        a.len() == b.len(),
        forall|i: int| 0 <= i < a.len() ==> same_tree(#[trigger] a[i], b[i]),
    decreases a,
{
    if a.len() > 0 {
        root_stands_above(a.last(), depth);
    }
    if b.len() > 0 {
        root_stands_above(b.last(), depth);
    }
    if a.len() > 0 && b.len() > 0 {
        let all = listings(a, depth);
        let p = listings(a.drop_last(), depth);
        let q = listings(b.drop_last(), depth);
        let x = listing(a.last(), depth);
        let y = listing(b.last(), depth);
        assert(all == p + x);
        assert(all == q + y);
        assert(all[p.len() as int] == x[0]);
        assert(all[q.len() as int] == y[0]);
        if p.len() < q.len() {
            assert(q.len() < all.len());
            assert((p + x)[q.len() as int] == x[q.len() - p.len()]);
        }
        if q.len() < p.len() {
            assert(p.len() < all.len());
            assert((q + y)[p.len() as int] == y[p.len() - q.len()]);
        }
        assert(p =~= all.take(p.len() as int));
        assert(q =~= all.take(q.len() as int));
        assert(x =~= all.skip(p.len() as int));
        assert(y =~= all.skip(q.len() as int));
        listings_decide(a.drop_last(), b.drop_last(), depth);
        listing_decides(a.last(), b.last(), depth);
        assert forall|i: int| 0 <= i < a.len() implies same_tree(#[trigger] a[i], b[i]) by {
            if i < a.len() - 1 {
                assert(same_tree(a.drop_last()[i], b.drop_last()[i]));
            }
        }
    }
}

} // verus!
