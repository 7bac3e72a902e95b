//! XML elements, texts and comments of a parsed data file.
use std::ops::Range;
use vstd::prelude::*;

use crate::text::same_text;

verus! {

/// What a node of an XML tree is.
#[derive(Clone, Copy, Debug, PartialEq, Eq, Structural)]
pub enum NodeKind {
    Element,
    Text,
    Comment,
    Instruction,
}

/// An attribute of an element. `range` covers the whole `name="value"`, `value_range` what
/// stands between the quotes.
#[derive(Debug)]
pub struct XmlAttribute {
    /// Name without prefix.
    pub name: String,
    pub value: String,
    pub range: Range<usize>,
    pub value_range: Range<usize>,
}

/// A node of an XML tree with its byte range in the file.
#[derive(Debug)]
pub struct XmlNode {
    pub kind: NodeKind,
    /// Name of an element, without prefix.
    pub tag: String,
    pub attributes: Vec<XmlAttribute>,
    /// Characters of a text or a comment.
    pub content: String,
    pub range: Range<usize>,
    pub children: Vec<XmlNode>,
}

/// The first attribute called `name`, prefixes left aside, where there is one.
pub open spec fn first_attribute(attributes: Seq<XmlAttribute>, name: Seq<char>) -> Option<
    XmlAttribute,
>
    decreases attributes.len(),
{
    if attributes.len() == 0 {
        None
    } else if attributes[0].name@ == name {
        Some(attributes[0])
    } else {
        first_attribute(attributes.skip(1), name)
    }
}

proof fn first_is_found(attributes: Seq<XmlAttribute>, name: Seq<char>)
    ensures
        first_attribute(attributes, name) is Some == exists|j: int|
            0 <= j < attributes.len() && (#[trigger] attributes[j]).name@ == name,
    decreases attributes.len(),
{
    if attributes.len() > 0 {
        let rest = attributes.skip(1);
        first_is_found(rest, name);
        if exists|j: int| 0 <= j < rest.len() && (#[trigger] rest[j]).name@ == name {
            let j = choose|j: int| 0 <= j < rest.len() && (#[trigger] rest[j]).name@ == name;
            assert(attributes[j + 1].name@ == name);
        }
        if exists|j: int| 0 <= j < attributes.len() && (#[trigger] attributes[j]).name@ == name {
            let j = choose|j: int|
                0 <= j < attributes.len() && (#[trigger] attributes[j]).name@ == name;
            if j > 0 {
                assert(rest[j - 1].name@ == name);
            }
        }
    }
}

impl XmlNode {
    /// Name of the element; empty for any other node.
    pub open spec fn tag_name(self) -> Seq<char> {
        if self.kind == NodeKind::Element {
            self.tag@
        } else {
            Seq::empty()
        }
    }

    /// The first attribute called `name`, prefixes left aside.
    pub open spec fn attribute(self, name: Seq<char>) -> Option<XmlAttribute> {
        first_attribute(self.attributes@, name)
    }

    /// Whether an attribute is called `name`, with or without prefix.
    pub open spec fn has_attribute(self, name: Seq<char>) -> bool {
        self.attribute(name) is Some
    }

    /// Value of the first attribute called `name`, prefixes left aside.
    pub open spec fn attribute_value(self, name: Seq<char>) -> Option<Seq<char>> {
        match self.attribute(name) {
            Some(attribute) => Some(attribute.value@),
            None => None,
        }
    }

    /// Characters of a text or a comment; of an element, those of its first child if
    /// that is a text.
    pub open spec fn text(self) -> Option<Seq<char>> {
        match self.kind {
            NodeKind::Element => if self.children@.len() > 0 && self.children@[0].kind
                == NodeKind::Text {
                Some(self.children@[0].content@)
            } else {
                None
            },
            NodeKind::Instruction => None,
            _ => Some(self.content@),
        }
    }

    /// An attribute that is there is found by its name.
    pub proof fn named_is_found(self, name: Seq<char>)
        ensures
            self.has_attribute(name) == exists|j: int|
                0 <= j < self.attributes@.len() && (#[trigger] self.attributes@[j]).name@ == name,
    {
        first_is_found(self.attributes@, name);
    }

    /// Whether the node is an element.
    pub fn is_element(&self) -> (r: bool)
        ensures
            r == (self.kind == NodeKind::Element),
    {
        self.kind == NodeKind::Element
    }

    /// Whether the node is a text.
    pub fn is_text(&self) -> (r: bool)
        ensures
            r == (self.kind == NodeKind::Text),
    {
        self.kind == NodeKind::Text
    }

    /// Whether the node is a comment.
    pub fn is_comment(&self) -> (r: bool)
        ensures
            r == (self.kind == NodeKind::Comment),
    {
        self.kind == NodeKind::Comment
    }

    /// Name of the element; empty for any other node.
    pub fn get_tag_name(&self) -> (r: &str)
        ensures
            r@ == self.tag_name(),
    {
        if self.is_element() {
            self.tag.as_str()
        } else {
            proof {
                reveal_strlit("");
                assert(""@ =~= Seq::empty());
            }
            ""
        }
    }

    /// Whether the node is an element called `name`; `name` is not empty.
    pub fn is_tag(&self, name: &str) -> (r: bool)
        ensures
            r == (self.tag_name() == name@),
    {
        same_text(self.get_tag_name(), name)
    }

    /// The first attribute called `name`, prefixes left aside.
    pub fn attribute_node(&self, name: &str) -> (r: Option<&XmlAttribute>)
        ensures
            match self.attribute(name@) {
                Some(attribute) => r == Some(&attribute),
                None => r is None,
            },
    {
        let mut i: usize = 0;
        assert(self.attributes@.skip(0) =~= self.attributes@);
        while i < self.attributes.len()
            invariant
                i <= self.attributes.len(),
                self.attribute(name@) == first_attribute(self.attributes@.skip(i as int), name@),
            decreases self.attributes.len() - i,
        {
            assert(self.attributes@.skip(i as int).skip(1) =~= self.attributes@.skip(i + 1));
            let attribute = &self.attributes[i];
            if same_text(attribute.name.as_str(), name) {
                return Some(attribute);
            }
            i = i + 1;
        }
        None
    }

    /// Whether an attribute is called `name`, with or without prefix.
    pub fn contains_attribute(&self, name: &str) -> (r: bool)
        ensures
            r == self.has_attribute(name@),
    {
        self.attribute_node(name).is_some()
    }

    /// Characters of a text or a comment; of an element, those of its first child if
    /// that is a text.
    pub fn get_text(&self) -> (r: Option<&str>)
        ensures
            r is Some == self.text() is Some,
            r is Some ==> r->0@ == self.text()->0,
    {
        match self.kind {
            NodeKind::Element => {
                if self.children.len() > 0 && self.children[0].is_text() {
                    Some(self.children[0].content.as_str())
                } else {
                    None
                }
            },
            NodeKind::Instruction => None,
            _ => Some(self.content.as_str()),
        }
    }
}

/// A copy of a byte range.
pub fn copy_range(range: &Range<usize>) -> (r: Range<usize>)
    ensures
        r == *range,
{
    range.start..range.end
}

} // verus!
