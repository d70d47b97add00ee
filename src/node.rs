//! The nodes of a document tree.

use vstd::prelude::*;
use vstd::string::StringSliceAdditionalSpecFns;

verus! {

#[derive(Debug, PartialEq)]
pub enum XmlNode<'a> {
    TextNode(&'a str),
    CommentNode(&'a str),
    ElementNode { name: &'a str, children: Vec<XmlNode<'a>> },
    AttributeNode { name: &'a str, value: &'a str },
    CdataSectionNode(&'a str),
    ProcessingInstructionNode(&'a str, Option<&'a str>),
}

/// The model of a node: its kind and the bytes of the text it holds.
pub enum NodeV {
    Text(Seq<u8>),
    Comment(Seq<u8>),
    Element { name: Seq<u8>, children: Seq<NodeV> },
    Attribute { name: Seq<u8>, value: Seq<u8> },
    CdataSection(Seq<u8>),
    ProcessingInstruction(Seq<u8>, Option<Seq<u8>>),
}

impl<'a> XmlNode<'a> {
    pub open spec fn view(&self) -> NodeV
        decreases self,
    {
        match self {
            XmlNode::TextNode(s) => NodeV::Text(s.spec_bytes()),
            XmlNode::CommentNode(s) => NodeV::Comment(s.spec_bytes()),
            XmlNode::ElementNode { name, children } => NodeV::Element {
                name: name.spec_bytes(),
                children: Seq::new(
                    children@.len(),
                    |i: int|
                        if 0 <= i < children@.len() {
                            children@[i].view()
                        } else {
                            NodeV::Text(Seq::empty())
                        },
                ),
            },
            XmlNode::AttributeNode { name, value } => NodeV::Attribute {
                name: name.spec_bytes(),
                value: value.spec_bytes(),
            },
            XmlNode::CdataSectionNode(s) => NodeV::CdataSection(s.spec_bytes()),
            XmlNode::ProcessingInstructionNode(t, d) => NodeV::ProcessingInstruction(
                t.spec_bytes(),
                match d {
                    Some(d) => Some(d.spec_bytes()),
                    None => None,
                },
            ),
        }
    }
}

/// The models of a sequence of nodes.
pub open spec fn nodes_view(v: Seq<XmlNode>) -> Seq<NodeV> {
    v.map_values(|n: XmlNode| n.view())
}

} // verus!
