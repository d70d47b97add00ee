//! The tree builder: a pass over the tokens with an explicit stack of open elements.

use vstd::prelude::*;
use vstd::string::StringSliceAdditionalSpecFns;

use crate::error::{ErrV, XmlError, XmlErrorRange};
use crate::grammar::tokenize_spec;
use crate::node::{nodes_view, NodeV, XmlNode};
use crate::textrange::{Span, TextRange};
use crate::token::{tokens_view, TokenV, XmlToken};
use crate::tokenize::XmlTokenizer;
use crate::tokenstream::TokenStream;
use crate::util::bytes_equal;
use crate::xmlchar::XmlByte;

verus! {

/// An element whose end tag has not been read yet: its name and the children so far.
pub struct Frame {
    pub name: Span,
    pub children: Seq<NodeV>,
}

/// The state of the tree builder: the open elements, innermost last, and the root element
/// once it is closed.
pub struct BuildState {
    pub stack: Seq<Frame>,
    pub root: Option<NodeV>,
}

/// The range that an error reports for a token that stands where it may not.
pub open spec fn token_span(t: TokenV) -> Span {
    match t {
        TokenV::Text(s) => s,
        TokenV::StartTag(s) => s,
        TokenV::EndTag(s) => s,
        TokenV::CdataSection(s) => s,
        TokenV::Comment(s) => s,
        TokenV::ProcessingInstruction { target, .. } => target,
        TokenV::Attribute { name, .. } => name,
        TokenV::XmlDeclaration { version, .. } => version,
        TokenV::DocTypeDeclaration { name, .. } => name,
        TokenV::ParameterEntityReference(s) => s,
    }
}

/// The node that a token of element content becomes; none for tags and prolog tokens.
pub open spec fn leaf_node(t: TokenV) -> Option<NodeV> {
    match t {
        TokenV::Text(s) => Some(NodeV::Text(s.text)),
        TokenV::CdataSection(s) => Some(NodeV::CdataSection(s.text)),
        TokenV::Comment(s) => Some(NodeV::Comment(s.text)),
        TokenV::ProcessingInstruction { target, data } => Some(
            NodeV::ProcessingInstruction(
                target.text,
                match data {
                    Some(d) => Some(d.text),
                    None => None,
                },
            ),
        ),
        TokenV::Attribute { name, value } => Some(
            NodeV::Attribute { name: name.text, value: value.text },
        ),
        _ => None,
    }
}

/// Whitespace only.
pub open spec fn blank(s: Seq<u8>) -> bool {
    forall|i: int| 0 <= i < s.len() ==> crate::xmlchar::xml_whitespace(#[trigger] s[i])
}

/// A token that may stand at the top level, beside the root element: `Misc`, that is a
/// comment, a processing instruction or whitespace.
pub open spec fn top_level_misc(t: TokenV) -> bool {
    match t {
        TokenV::Comment(_) => true,
        TokenV::ProcessingInstruction { .. } => true,
        TokenV::Text(s) => blank(s.text),
        _ => false,
    }
}

/// `st` with `n` added to the children of its innermost open element.
pub open spec fn add_child(st: BuildState, n: NodeV) -> BuildState {
    let top = st.stack.last();
    BuildState {
        stack: st.stack.update(
            st.stack.len() - 1,
            Frame { name: top.name, children: top.children.push(n) },
        ),
        root: st.root,
    }
}

/// One token read by the tree builder.
pub open spec fn step(st: BuildState, t: TokenV) -> Result<BuildState, ErrV> {
    match t {
        TokenV::StartTag(nm) => if st.stack.len() == 0 && st.root is Some {
            // a second element at the top level
            Err(ErrV::UnexpectedXmlToken(nm))
        } else {
            Ok(
                BuildState {
                    stack: st.stack.push(Frame { name: nm, children: seq![] }),
                    root: st.root,
                },
            )
        },
        TokenV::EndTag(e) => if st.stack.len() == 0 {
            Err(ErrV::UnexpectedXmlToken(e))
        } else if st.stack.last().name.text != e.text {
            Err(ErrV::NonMatchingTags(st.stack.last().name, e))
        } else {
            let node = NodeV::Element {
                name: st.stack.last().name.text,
                children: st.stack.last().children,
            };
            let rest = BuildState { stack: st.stack.drop_last(), root: st.root };
            if rest.stack.len() == 0 {
                Ok(BuildState { stack: rest.stack, root: Some(node) })
            } else {
                Ok(add_child(rest, node))
            }
        },
        _ => match leaf_node(t) {
            Some(n) => if st.stack.len() > 0 {
                Ok(add_child(st, n))
            } else if top_level_misc(t) {
                Ok(st)
            } else {
                Err(ErrV::UnexpectedXmlToken(token_span(t)))
            },
            None => if st.stack.len() == 0 && st.root is None {
                // the prolog
                Ok(st)
            } else {
                Err(ErrV::UnexpectedXmlToken(token_span(t)))
            },
        },
    }
}

/// The tree builder on the tokens from the `i`-th on, from the state `st`.
pub open spec fn run(ts: Seq<TokenV>, i: int, st: BuildState) -> Result<BuildState, ErrV>
    decreases ts.len() - i,
{
    if i < 0 || i >= ts.len() {
        Ok(st)
    } else {
        match step(st, ts[i]) {
            Err(e) => Err(e),
            Ok(st2) => run(ts, i + 1, st2),
        }
    }
}

pub open spec fn empty_state() -> BuildState {
    BuildState { stack: seq![], root: None }
}

/// The tree of a token sequence: exactly one root element, with every element closed.
pub open spec fn build(ts: Seq<TokenV>) -> Result<NodeV, ErrV> {
    match run(ts, 0, empty_state()) {
        Err(e) => Err(e),
        Ok(st) => if st.stack.len() > 0 {
            Err(ErrV::UnexpectedEndOfFile)
        } else {
            match st.root {
                Some(n) => Ok(n),
                None => Err(ErrV::UnexpectedEndOfFile),
            }
        },
    }
}

/// The tree of a text.
pub open spec fn parse_spec(b: Seq<u8>) -> Result<NodeV, ErrV> {
    match tokenize_spec(b) {
        Err(e) => Err(e),
        Ok(ts) => build(ts),
    }
}

/// The model of the builder's stack.
pub open spec fn stack_view(s: Seq<(TextRange, Vec<XmlNode>)>) -> Seq<Frame> {
    s.map_values(|f: (TextRange, Vec<XmlNode>)| Frame { name: f.0@, children: nodes_view(f.1@) })
}

pub open spec fn root_view(r: Option<XmlNode>) -> Option<NodeV> {
    match r {
        Some(n) => Some(n.view()),
        None => None,
    }
}

fn error_range(r: TextRange) -> (e: XmlErrorRange)
    ensures
        e@ == r@,
{
    XmlErrorRange { start: r.start, end: r.end, input: r.slice.to_owned() }
}

fn token_range<'a>(t: &XmlToken<'a>) -> (r: TextRange<'a>)
    ensures
        r@ == token_span(t@),
{
    match t {
        XmlToken::Text(s) => *s,
        XmlToken::StartTag(s) => *s,
        XmlToken::EndTag(s) => *s,
        XmlToken::CdataSection(s) => *s,
        XmlToken::Comment(s) => *s,
        XmlToken::ProcessingInstruction { target_range, .. } => *target_range,
        XmlToken::Attribute { name_range, .. } => *name_range,
        XmlToken::XmlDeclaration { version_range, .. } => *version_range,
        XmlToken::DocTypeDeclaration { name_range, .. } => *name_range,
        XmlToken::ParameterEntityReference(s) => *s,
    }
}

fn leaf<'a>(t: &XmlToken<'a>) -> (r: Option<XmlNode<'a>>)
    ensures
        root_view(r) == leaf_node(t@),
{
    match t {
        XmlToken::Text(s) => Some(XmlNode::TextNode(s.slice)),
        XmlToken::CdataSection(s) => Some(XmlNode::CdataSectionNode(s.slice)),
        XmlToken::Comment(s) => Some(XmlNode::CommentNode(s.slice)),
        XmlToken::ProcessingInstruction { target_range, opt_value_range } => {
            let data = match opt_value_range {
                Some(v) => Some(v.slice),
                None => None,
            };
            Some(XmlNode::ProcessingInstructionNode(target_range.slice, data))
        },
        XmlToken::Attribute { name_range, value_range } => Some(
            XmlNode::AttributeNode { name: name_range.slice, value: value_range.slice },
        ),
        _ => None,
    }
}

/// Whether `s` is whitespace only.
fn is_blank(s: &str) -> (r: bool)
    ensures
        r == blank(s.spec_bytes()),
{
    let b = s.as_bytes();
    let mut i: usize = 0;
    while i < b.len()
        invariant
            b@ == s.spec_bytes(),
            i <= b@.len(),
            forall|j: int| 0 <= j < i ==> crate::xmlchar::xml_whitespace(#[trigger] b@[j]),
        decreases b@.len() - i,
    {
        if !b[i].is_xml_whitespace() {
            assert(!crate::xmlchar::xml_whitespace(b@[i as int]));
            return false;
        }
        i = i + 1;
    }
    true
}

/// Whether a token may stand at the top level beside the root element.
fn is_top_level_misc(t: &XmlToken) -> (r: bool)
    ensures
        r == top_level_misc(t@),
{
    match t {
        XmlToken::Comment(_) => true,
        XmlToken::ProcessingInstruction { .. } => true,
        XmlToken::Text(s) => is_blank(s.slice),
        _ => false,
    }
}

fn element<'a>(name: TextRange<'a>, children: Vec<XmlNode<'a>>) -> (r: XmlNode<'a>)
    ensures
        r.view() == (NodeV::Element { name: name@.text, children: nodes_view(children@) }),
{
    let r = XmlNode::ElementNode { name: name.slice, children };
    assert(r.view()->children =~= nodes_view(children@));
    r
}

pub struct XmlParser {}

impl Default for XmlParser {
    fn default() -> Self {
        XmlParser {  }
    }
}

impl<'a> XmlParser {
    /// The tree of `xml`: its root element, or the first error.
    pub fn parse(&mut self, xml: &'a str) -> (r: Result<XmlNode<'a>, XmlError>)
        ensures
            match parse_spec(xml.spec_bytes()) {
                Ok(n) => r matches Ok(x) && x.view() == n,
                Err(e) => r matches Err(x) && x@ == e,
            },
    {
        // tokenize
        let tokens = XmlTokenizer {  }.tokenize(xml)?;
        let ghost toks = tokens_view(tokens@);
        let mut ts = TokenStream::new(tokens);
        let mut stack: Vec<(TextRange<'a>, Vec<XmlNode<'a>>)> = Vec::new();
        let mut root: Option<XmlNode<'a>> = None;
        assert(stack_view(stack@) =~= Seq::<Frame>::empty());
        assert(parse_spec(xml.spec_bytes()) == build(toks));
        while ts.has_next()
            invariant
                parse_spec(xml.spec_bytes()) == build(toks),
                toks == tokens_view(ts.tokens@),
                ts.pos <= ts.tokens@.len(),
                run(toks, 0, empty_state()) == run(
                    toks,
                    ts.pos as int,
                    BuildState { stack: stack_view(stack@), root: root_view(root) },
                ),
            decreases ts.tokens@.len() - ts.pos,
        {
            let ghost st = BuildState { stack: stack_view(stack@), root: root_view(root) };
            let ghost i = ts.pos as int;
            let token = ts.next();
            assert(toks[i] == token@);
            match token {
                XmlToken::StartTag(name_range) => {
                    if stack.len() == 0 && root.is_some() {
                        return Err(XmlError::UnexpectedXmlToken { token: error_range(name_range) });
                    }
                    let ghost before = stack@;
                    let children: Vec<XmlNode<'a>> = Vec::new();
                    assert(nodes_view(children@) =~= Seq::<NodeV>::empty());
                    stack.push((name_range, children));
                    assert(stack_view(stack@) =~= stack_view(before).push(
                        Frame { name: name_range@, children: seq![] },
                    ));
                },
                XmlToken::EndTag(end_range) => {
                    if stack.len() == 0 {
                        return Err(XmlError::UnexpectedXmlToken { token: error_range(end_range) });
                    }
                    let ghost before = stack@;
                    let (start_range, children) = stack.pop().unwrap();
                    assert(stack_view(stack@) =~= stack_view(before).drop_last());
                    if !bytes_equal(start_range.slice.as_bytes(), end_range.slice.as_bytes()) {
                        return Err(
                            XmlError::NonMatchingTags {
                                start_tag: error_range(start_range),
                                end_tag: error_range(end_range),
                            },
                        );
                    }
                    let node = element(start_range, children);
                    if stack.len() == 0 {
                        root = Some(node);
                    } else {
                        let ghost mid = stack@;
                        let (parent_range, mut siblings) = stack.pop().unwrap();
                        let ghost sib = siblings@;
                        siblings.push(node);
                        assert(nodes_view(siblings@) =~= nodes_view(sib).push(node.view()));
                        stack.push((parent_range, siblings));
                        assert(stack_view(stack@) =~= stack_view(mid).update(
                            mid.len() - 1,
                            Frame { name: parent_range@, children: nodes_view(siblings@) },
                        ));
                    }
                },
                _ => {
                    match leaf(&token) {
                        Some(n) => {
                            if stack.len() > 0 {
                                let ghost mid = stack@;
                                let (parent_range, mut siblings) = stack.pop().unwrap();
                                let ghost sib = siblings@;
                                siblings.push(n);
                                assert(nodes_view(siblings@) =~= nodes_view(sib).push(n.view()));
                                stack.push((parent_range, siblings));
                                assert(stack_view(stack@) =~= stack_view(mid).update(
                                    mid.len() - 1,
                                    Frame { name: parent_range@, children: nodes_view(siblings@) },
                                ));
                            } else if !is_top_level_misc(&token) {
                                return Err(
                                    XmlError::UnexpectedXmlToken {
                                        token: error_range(token_range(&token)),
                                    },
                                );
                            }
                        },
                        None => {
                            if !(stack.len() == 0 && root.is_none()) {
                                return Err(
                                    XmlError::UnexpectedXmlToken {
                                        token: error_range(token_range(&token)),
                                    },
                                );
                            }
                        },
                    }
                },
            }
        }
        if stack.len() > 0 {
            return Err(XmlError::UnexpectedEndOfFile);
        }
        match root {
            Some(n) => Ok(n),
            None => Err(XmlError::UnexpectedEndOfFile),
        }
    }
}

} // verus!

verus! {

/// Parsing is a function of the text: two parses of one text give the same tree, or the
/// same error.
pub proof fn lemma_parse_deterministic<'a>(
    xml: &'a str,
    r1: Result<XmlNode<'a>, XmlError>,
    r2: Result<XmlNode<'a>, XmlError>,
)
    requires
        match parse_spec(xml.spec_bytes()) {
            Ok(n) => r1 matches Ok(x) && x.view() == n,
            Err(e) => r1 matches Err(x) && x@ == e,
        },
        match parse_spec(xml.spec_bytes()) {
            Ok(n) => r2 matches Ok(x) && x.view() == n,
            Err(e) => r2 matches Err(x) && x@ == e,
        },
    ensures
        r1 is Ok <==> r2 is Ok,
        r1 matches Ok(x1) ==> r2 matches Ok(x2) && x1.view() == x2.view(),
        r1 matches Err(e1) ==> r2 matches Err(e2) && e1@ == e2@,
{
}

} // verus!

verus! {

/// How a token changes the nesting depth.
pub open spec fn depth_delta(t: TokenV) -> int {
    match t {
        TokenV::StartTag(_) => 1,
        TokenV::EndTag(_) => -1,
        _ => 0,
    }
}

/// The nesting depth before the `i`-th token: start tags less end tags before it.
pub open spec fn depth(ts: Seq<TokenV>, i: int) -> int
    decreases i,
{
    if i <= 0 {
        0
    } else {
        depth(ts, i - 1) + depth_delta(ts[i - 1])
    }
}

/// The `i`-th token starts an element at the top level.
pub open spec fn top_level_start(ts: Seq<TokenV>, i: int) -> bool {
    0 <= i < ts.len() && ts[i] is StartTag && depth(ts, i) == 0
}

/// Some element at the top level has been closed before the `i`-th token.
pub open spec fn closed_top(ts: Seq<TokenV>, i: int) -> bool {
    exists|m: int| 0 <= m < i && #[trigger] ts[m] is EndTag && depth(ts, m + 1) == 0
}

proof fn lemma_run_without_start(ts: Seq<TokenV>, i: int, st: BuildState)
    requires
        0 <= i,
        st.stack.len() == 0,
        st.root is None,
        forall|k: int| i <= k < ts.len() ==> !(#[trigger] ts[k] is StartTag),
    ensures
        run(ts, i, st) matches Ok(s) ==> s.stack.len() == 0 && s.root is None,
    decreases ts.len() - i,
{
    if i < ts.len() {
        assert(!(ts[i] is StartTag));
        match step(st, ts[i]) {
            Err(_) => {},
            Ok(st2) => {
                lemma_run_without_start(ts, i + 1, st2);
            },
        }
    }
}

/// A document without any element is rejected.
pub proof fn lemma_no_element_rejected(b: Seq<u8>, ts: Seq<TokenV>)
    requires
        tokenize_spec(b) == Ok::<Seq<TokenV>, ErrV>(ts),
        forall|k: int| 0 <= k < ts.len() ==> !(#[trigger] ts[k] is StartTag),
    ensures
        parse_spec(b) is Err,
{
    lemma_run_without_start(ts, 0, empty_state());
}

proof fn lemma_depth_falls_to_zero(ts: Seq<TokenV>, a: int, c: int)
    requires
        0 <= a < c <= ts.len(),
        depth(ts, a) >= 1,
        depth(ts, c) == 0,
    ensures
        closed_top(ts, c),
    decreases c - a,
{
    if depth(ts, a + 1) == 0 {
        assert(ts[a] is EndTag);
        assert(0 <= a < c && ts[a] is EndTag && depth(ts, a + 1) == 0);
    } else {
        lemma_depth_falls_to_zero(ts, a + 1, c);
    }
}

proof fn lemma_closed_top_step(ts: Seq<TokenV>, i: int)
    requires
        0 <= i < ts.len(),
    ensures
        closed_top(ts, i + 1) <==> (closed_top(ts, i) || (ts[i] is EndTag && depth(ts, i + 1)
            == 0)),
{
    if closed_top(ts, i + 1) && !(ts[i] is EndTag && depth(ts, i + 1) == 0) {
        let m = choose|m: int| 0 <= m < i + 1 && #[trigger] ts[m] is EndTag && depth(ts, m + 1) == 0;
        assert(m != i);
        assert(0 <= m < i && ts[m] is EndTag && depth(ts, m + 1) == 0);
    }
    if closed_top(ts, i) {
        let m = choose|m: int| 0 <= m < i && #[trigger] ts[m] is EndTag && depth(ts, m + 1) == 0;
        assert(0 <= m < i + 1 && ts[m] is EndTag && depth(ts, m + 1) == 0);
    }
    if ts[i] is EndTag && depth(ts, i + 1) == 0 {
        assert(0 <= i < i + 1 && ts[i] is EndTag && depth(ts, i + 1) == 0);
    }
}

proof fn lemma_run_second_root(ts: Seq<TokenV>, i: int, st: BuildState, i0: int, j0: int)
    requires
        top_level_start(ts, i0),
        top_level_start(ts, j0),
        i0 < j0,
        0 <= i <= j0,
        st.stack.len() == depth(ts, i),
        st.root is Some <==> closed_top(ts, i),
    ensures
        run(ts, i, st) is Err,
    decreases j0 - i,
{
    if i == j0 {
        assert(depth(ts, i0 + 1) == 1);
        lemma_depth_falls_to_zero(ts, i0 + 1, j0);
    } else {
        lemma_closed_top_step(ts, i);
        match step(st, ts[i]) {
            Err(_) => {},
            Ok(st2) => {
                assert(st2.stack.len() == depth(ts, i + 1));
                lemma_run_second_root(ts, i + 1, st2, i0, j0);
            },
        }
    }
}

/// A document with two elements at its top level is rejected.
pub proof fn lemma_two_roots_rejected(b: Seq<u8>, ts: Seq<TokenV>, i: int, j: int)
    requires
        tokenize_spec(b) == Ok::<Seq<TokenV>, ErrV>(ts),
        top_level_start(ts, i),
        top_level_start(ts, j),
        i < j,
    ensures
        parse_spec(b) is Err,
{
    lemma_run_second_root(ts, 0, empty_state(), i, j);
}

} // verus!
