//! A tree of elements written out as text parses back to the same tree.

use vstd::prelude::*;

use crate::chariter::{skip_ws, test_at};
use crate::error::ErrV;
use crate::grammar::{
    EMPTY_TAG_CLOSE,
    attributes_at, char_data, content_at, end_tag_at, markup_at, misc_run, name_at, name_rest,
    prolog_at, start_tag_at, tokenize_spec, END_TAG_OPEN, GT, LT,
};
use crate::node::NodeV;
use crate::parse::{add_child, empty_state, parse_spec, run, step, BuildState, Frame};
use crate::textrange::span;
use crate::token::TokenV;
use crate::xmlchar::{ascii_alpha, ascii_digit, xml_whitespace};

verus! {

pub open spec fn ascii_name_start(x: u8) -> bool {
    ascii_alpha(x) || x == 0x5F || x == 0x3A
}

pub open spec fn ascii_name_byte(x: u8) -> bool {
    ascii_name_start(x) || ascii_digit(x) || x == 0x2D || x == 0x2E
}

/// A name written in ASCII letters, digits, `_`, `:`, `-` and `.`, not starting with a
/// digit, `-` or `.`.
pub open spec fn ascii_name(s: Seq<u8>) -> bool {
    &&& s.len() >= 1
    &&& ascii_name_start(s[0])
    &&& forall|k: int| 1 <= k < s.len() ==> ascii_name_byte(#[trigger] s[k])
}

/// A sequence of elements, each with an ASCII name and elements only inside.
pub open spec fn element_forest(cs: Seq<NodeV>) -> bool
    decreases cs,
{
    if cs.len() == 0 {
        true
    } else {
        element_forest(cs.drop_last()) && match cs.last() {
            NodeV::Element { name, children } => ascii_name(name) && element_forest(children),
            _ => false,
        }
    }
}

/// Whitespace only.
pub open spec fn xml_spaces(ws: Seq<u8>) -> bool {
    forall|k: int| 0 <= k < ws.len() ==> xml_whitespace(#[trigger] ws[k])
}

/// A start tag, with `ws` between the name and the `>`.
pub open spec fn open_tag(name: Seq<u8>, ws: Seq<u8>) -> Seq<u8> {
    seq![LT] + name + ws + seq![GT]
}

/// An end tag, with `ws` between the name and the `>`.
pub open spec fn close_tag(name: Seq<u8>, ws: Seq<u8>) -> Seq<u8> {
    END_TAG_OPEN@ + name + ws + seq![GT]
}

/// An empty-element tag, with `ws` between the name and the `/>`.
pub open spec fn empty_tag(name: Seq<u8>, ws: Seq<u8>) -> Seq<u8> {
    seq![LT] + name + ws + EMPTY_TAG_CLOSE@
}

/// The text of a sequence of elements: each as a start tag, its children and an end tag,
/// every tag with `ws` before its `>`; when `short` holds, an element without children is
/// written as an empty-element tag instead.
pub open spec fn render_forest(cs: Seq<NodeV>, ws: Seq<u8>, short: bool) -> Seq<u8>
    decreases cs,
{
    if cs.len() == 0 {
        seq![]
    } else {
        render_forest(cs.drop_last(), ws, short) + match cs.last() {
            NodeV::Element { name, children } => if short && children.len() == 0 {
                empty_tag(name, ws)
            } else {
                open_tag(name, ws) + render_forest(children, ws, short) + close_tag(name, ws)
            },
            _ => seq![],
        }
    }
}

/// The tokens of the elements `cs` written at offset `p` of `b`.
pub open spec fn tokens_forest(
    b: Seq<u8>,
    p: int,
    cs: Seq<NodeV>,
    ws: Seq<u8>,
    short: bool,
) -> Seq<TokenV>
    decreases cs,
{
    if cs.len() == 0 {
        seq![]
    } else {
        let q = p + render_forest(cs.drop_last(), ws, short).len();
        tokens_forest(b, p, cs.drop_last(), ws, short) + match cs.last() {
            NodeV::Element { name, children } => if short && children.len() == 0 {
                let nm = span(b, q + 1, q + 1 + name.len());
                seq![TokenV::StartTag(nm), TokenV::EndTag(nm)]
            } else {
                let c = q + 2 + name.len() + ws.len();
                let e = c + render_forest(children, ws, short).len();
                seq![TokenV::StartTag(span(b, q + 1, q + 1 + name.len()))] + tokens_forest(
                    b,
                    c,
                    children,
                    ws,
                    short,
                ) + seq![TokenV::EndTag(span(b, e + 2, e + 2 + name.len()))]
            },
            _ => seq![],
        }
    }
}

/// `st` with the elements `cs` added, in order, to the children of its innermost open
/// element.
pub open spec fn add_children(st: BuildState, cs: Seq<NodeV>) -> BuildState
    decreases cs.len(),
{
    if cs.len() == 0 {
        st
    } else {
        add_child(add_children(st, cs.drop_last()), cs.last())
    }
}

proof fn lemma_add_children(st: BuildState, cs: Seq<NodeV>)
    requires
        st.stack.len() > 0,
    ensures
        add_children(st, cs) == (BuildState {
            stack: st.stack.update(
                st.stack.len() - 1,
                Frame {
                    name: st.stack.last().name,
                    children: st.stack.last().children + cs,
                },
            ),
            root: st.root,
        }),
    decreases cs.len(),
{
    if cs.len() == 0 {
        assert(st.stack.last().children + cs =~= st.stack.last().children);
        assert(st.stack.update(st.stack.len() - 1, st.stack.last()) =~= st.stack);
    } else {
        lemma_add_children(st, cs.drop_last());
        let mid = add_children(st, cs.drop_last());
        assert(mid.stack.last().children.push(cs.last()) =~= st.stack.last().children + cs);
        assert(mid.stack.update(
            mid.stack.len() - 1,
            Frame { name: st.stack.last().name, children: st.stack.last().children + cs },
        ) =~= st.stack.update(
            st.stack.len() - 1,
            Frame { name: st.stack.last().name, children: st.stack.last().children + cs },
        ));
    }
}

proof fn lemma_name_rest_ascii(b: Seq<u8>, s: int, e: int)
    requires
        0 <= s <= e < b.len(),
        forall|k: int| s <= k < e ==> ascii_name_byte(#[trigger] b[k]),
        b[e] == GT || b[e] == 0x2F || xml_whitespace(b[e]),
    ensures
        name_rest(b, s) == Ok::<int, ErrV>(e),
    decreases e - s,
{
    if s < e {
        assert(ascii_name_byte(b[s]));
        lemma_name_rest_ascii(b, s + 1, e);
    }
}

/// The name `name` written at `s` and followed by `>` or whitespace is read as a name.
proof fn lemma_name_ascii(b: Seq<u8>, s: int, name: Seq<u8>)
    requires
        ascii_name(name),
        0 <= s,
        s + name.len() < b.len(),
        b.subrange(s, s + name.len()) == name,
        b[s + name.len()] == GT || b[s + name.len()] == 0x2F || xml_whitespace(b[s + name.len()]),
    ensures
        name_at(b, s) == Ok::<(crate::textrange::Span, int), ErrV>(
            (span(b, s, s + name.len()), s + name.len()),
        ),
{
    reveal(name_at);
    assert(b[s] == name[0]);
    assert forall|k: int| s + 1 <= k < s + name.len() implies ascii_name_byte(#[trigger] b[k]) by {
        assert(b[k] == name[k - s]);
    }
    lemma_name_rest_ascii(b, s + 1, s + name.len());
}

/// Whitespace that ends at a `>` or `/` is skipped up to it.
proof fn lemma_skip_spaces_run(b: Seq<u8>, s: int, e: int)
    requires
        0 <= s <= e < b.len(),
        forall|k: int| s <= k < e ==> xml_whitespace(#[trigger] b[k]),
        b[e] == GT || b[e] == 0x2F,
    ensures
        skip_ws(b, s) == e,
    decreases e - s,
{
    if s < e {
        assert(xml_whitespace(b[s]));
        lemma_skip_spaces_run(b, s + 1, e);
    }
}

/// The bytes of `piece` stand at `p`, followed by `>`: the name and whitespace of a tag.
proof fn lemma_tag_parts(b: Seq<u8>, q: int, tag: Seq<u8>, o: int, name: Seq<u8>, ws: Seq<u8>)
    requires
        0 <= q,
        q + tag.len() <= b.len(),
        b.subrange(q, q + tag.len()) == tag,
        0 <= o,
        tag.len() == o + name.len() + ws.len() + 1,
        tag.subrange(o, o + name.len()) == name,
        tag.subrange(o + name.len(), o + name.len() + ws.len()) == ws,
        tag[tag.len() - 1] == GT,
        xml_spaces(ws),
    ensures
        b.subrange(q + o, q + o + name.len()) == name,
        forall|k: int| q + o + name.len() <= k < q + o + name.len() + ws.len() ==> xml_whitespace(
            #[trigger] b[k],
        ),
        b[q + tag.len() - 1] == GT,
{
    assert forall|k: int| 0 <= k < name.len() implies #[trigger] b.subrange(
        q + o,
        q + o + name.len(),
    )[k] == name[k] by {
        assert(b.subrange(q, q + tag.len())[o + k] == tag[o + k]);
        assert(tag.subrange(o, o + name.len())[k] == tag[o + k]);
    }
    assert(b.subrange(q + o, q + o + name.len()) =~= name);
    assert forall|k: int| q + o + name.len() <= k < q + o + name.len() + ws.len() implies xml_whitespace(
        #[trigger] b[k],
    ) by {
        let j = k - q - o - name.len();
        assert(b.subrange(q, q + tag.len())[k - q] == tag[k - q]);
        assert(tag.subrange(o + name.len(), o + name.len() + ws.len())[j] == tag[k - q]);
        assert(xml_whitespace(ws[j]));
    }
    assert(b.subrange(q, q + tag.len())[tag.len() - 1] == tag[tag.len() - 1]);
}

proof fn lemma_open_tag_step(b: Seq<u8>, q: int, name: Seq<u8>, ws: Seq<u8>, acc: Seq<TokenV>)
    requires
        ascii_name(name),
        xml_spaces(ws),
        0 <= q,
        q + open_tag(name, ws).len() <= b.len(),
        b.subrange(q, q + open_tag(name, ws).len()) == open_tag(name, ws),
    ensures
        content_at(b, q, acc) == content_at(
            b,
            q + open_tag(name, ws).len(),
            acc.push(TokenV::StartTag(span(b, q + 1, q + 1 + name.len()))),
        ),
{
    reveal(markup_at);
    reveal(start_tag_at);
    let t = open_tag(name, ws);
    let e = q + 1 + name.len();
    let g = e + ws.len();
    assert(t.subrange(1, 1 + name.len() as int) =~= name);
    assert(t.subrange(1 + name.len() as int, (1 + name.len() + ws.len()) as int) =~= ws);
    lemma_tag_parts(b, q, t, 1, name, ws);
    assert(b[q] == t[0]);
    assert(b[q + 1] == t[1]);
    assert(b[e] == GT || xml_whitespace(b[e])) by {
        if ws.len() > 0 {
            assert(xml_whitespace(b[e]));
        }
    }
    lemma_name_ascii(b, q + 1, name);
    lemma_skip_spaces_run(b, e, g);
    assert(char_data(b, q, LT as u32, true) == Ok::<int, ErrV>(q));
    assert(!test_at(b, q, END_TAG_OPEN@));
    assert(!test_at(b, q, crate::grammar::COMMENT_OPEN@));
    assert(!test_at(b, q, crate::grammar::CDATA_OPEN@));
    assert(!test_at(b, q, crate::grammar::PI_OPEN@));
    let st = TokenV::StartTag(span(b, q + 1, e));
    assert(!test_at(b, g, crate::grammar::EMPTY_TAG_CLOSE@));
    assert(b.subrange(g, g + 1) =~= crate::grammar::TAG_CLOSE@);
    assert(attributes_at(b, e, seq![st]) == Ok::<(Seq<TokenV>, int), ErrV>((seq![st], e)));
    assert(markup_at(b, q) == Ok::<(Seq<TokenV>, int), ErrV>((seq![st], g + 1)));
    assert(acc + seq![st] =~= acc.push(st));
}

proof fn lemma_close_tag_step(b: Seq<u8>, q: int, name: Seq<u8>, ws: Seq<u8>, acc: Seq<TokenV>)
    requires
        ascii_name(name),
        xml_spaces(ws),
        0 <= q,
        q + close_tag(name, ws).len() <= b.len(),
        b.subrange(q, q + close_tag(name, ws).len()) == close_tag(name, ws),
    ensures
        content_at(b, q, acc) == content_at(
            b,
            q + close_tag(name, ws).len(),
            acc.push(TokenV::EndTag(span(b, q + 2, q + 2 + name.len()))),
        ),
{
    reveal(markup_at);
    reveal(end_tag_at);
    let t = close_tag(name, ws);
    let e = q + 2 + name.len();
    let g = e + ws.len();
    assert(t.subrange(2, 2 + name.len() as int) =~= name);
    assert(t.subrange(2 + name.len() as int, (2 + name.len() + ws.len()) as int) =~= ws);
    lemma_tag_parts(b, q, t, 2, name, ws);
    assert(b[q] == t[0]);
    assert(b[q + 1] == t[1]);
    assert(b[e] == GT || xml_whitespace(b[e])) by {
        if ws.len() > 0 {
            assert(xml_whitespace(b[e]));
        }
    }
    lemma_name_ascii(b, q + 2, name);
    lemma_skip_spaces_run(b, e, g);
    assert(char_data(b, q, LT as u32, true) == Ok::<int, ErrV>(q));
    assert(b.subrange(q, q + 2) =~= END_TAG_OPEN@);
    let et = TokenV::EndTag(span(b, q + 2, e));
    assert(markup_at(b, q) == Ok::<(Seq<TokenV>, int), ErrV>((seq![et], g + 1)));
    assert(acc + seq![et] =~= acc.push(et));
}

proof fn lemma_empty_tag_step(b: Seq<u8>, q: int, name: Seq<u8>, ws: Seq<u8>, acc: Seq<TokenV>)
    requires
        ascii_name(name),
        xml_spaces(ws),
        0 <= q,
        q + empty_tag(name, ws).len() <= b.len(),
        b.subrange(q, q + empty_tag(name, ws).len()) == empty_tag(name, ws),
    ensures
        content_at(b, q, acc) == content_at(
            b,
            q + empty_tag(name, ws).len(),
            acc.push(TokenV::StartTag(span(b, q + 1, q + 1 + name.len()))).push(
                TokenV::EndTag(span(b, q + 1, q + 1 + name.len())),
            ),
        ),
{
    reveal(markup_at);
    reveal(start_tag_at);
    let t = empty_tag(name, ws);
    let e = q + 1 + name.len();
    let g = e + ws.len();
    assert forall|k: int| 0 <= k < t.len() implies #[trigger] b[q + k] == t[k] by {
        assert(b.subrange(q, q + t.len())[k] == t[k]);
    }
    assert(b.subrange(q + 1, e) =~= name) by {
        assert forall|k: int| 0 <= k < name.len() implies #[trigger] b.subrange(q + 1, e)[k]
            == name[k] by {
            assert(b[q + 1 + k] == t[1 + k]);
        }
    }
    assert forall|k: int| e <= k < g implies xml_whitespace(#[trigger] b[k]) by {
        assert(b[q + (k - q)] == t[k - q]);
        assert(t[k - q] == ws[k - e]);
    }
    assert(b[q] == t[0]);
    assert(b[q + 1] == t[1]);
    assert(b[g] == t[g - q]);
    assert(b[g + 1] == t[g + 1 - q]);
    assert(b[e] == 0x2F || xml_whitespace(b[e]));
    lemma_name_ascii(b, q + 1, name);
    lemma_skip_spaces_run(b, e, g);
    assert(char_data(b, q, LT as u32, true) == Ok::<int, ErrV>(q));
    assert(!test_at(b, q, END_TAG_OPEN@));
    assert(!test_at(b, q, crate::grammar::COMMENT_OPEN@));
    assert(!test_at(b, q, crate::grammar::CDATA_OPEN@));
    assert(!test_at(b, q, crate::grammar::PI_OPEN@));
    let nm = span(b, q + 1, e);
    let st = TokenV::StartTag(nm);
    assert(b.subrange(g, g + 2) =~= EMPTY_TAG_CLOSE@);
    assert(attributes_at(b, e, seq![st]) == Ok::<(Seq<TokenV>, int), ErrV>((seq![st], e)));
    assert(markup_at(b, q) == Ok::<(Seq<TokenV>, int), ErrV>(
        (seq![st].push(TokenV::EndTag(nm)), g + 2),
    ));
    assert(acc + seq![st].push(TokenV::EndTag(nm)) =~= acc.push(st).push(TokenV::EndTag(nm)));
}

proof fn lemma_sub_piece(b: Seq<u8>, p: int, whole: Seq<u8>, o: int, piece: Seq<u8>)
    requires
        0 <= p,
        p + whole.len() <= b.len(),
        b.subrange(p, p + whole.len()) == whole,
        0 <= o,
        o + piece.len() <= whole.len(),
        whole.subrange(o, o + piece.len()) == piece,
    ensures
        b.subrange(p + o, p + o + piece.len()) == piece,
{
    assert forall|k: int| 0 <= k < piece.len() implies #[trigger] b.subrange(
        p + o,
        p + o + piece.len(),
    )[k] == piece[k] by {
        assert(b.subrange(p, p + whole.len())[o + k] == whole[o + k]);
        assert(whole.subrange(o, o + piece.len())[k] == whole[o + k]);
    }
    assert(b.subrange(p + o, p + o + piece.len()) =~= piece);
}


/// The last of the elements `cs` is written as an empty-element tag.
proof fn lemma_content_last_empty(b: Seq<u8>, p: int, cs: Seq<NodeV>, ws: Seq<u8>, acc: Seq<TokenV>)
    requires
        cs.len() > 0,
        element_forest(cs),
        cs.last() matches NodeV::Element { children, .. } && children.len() == 0,
        xml_spaces(ws),
        0 <= p,
        p + render_forest(cs, ws, true).len() <= b.len(),
        b.subrange(p, p + render_forest(cs, ws, true).len()) == render_forest(cs, ws, true),
    ensures
        content_at(
            b,
            p + render_forest(cs.drop_last(), ws, true).len(),
            acc + tokens_forest(b, p, cs.drop_last(), ws, true),
        ) == content_at(
            b,
            p + render_forest(cs, ws, true).len(),
            acc + tokens_forest(b, p, cs, ws, true),
        ),
{
    let init = cs.drop_last();
    let r = render_forest(cs, ws, true);
    let r0 = render_forest(init, ws, true);
    let l0: int = r0.len() as int;
    let q = p + l0;
    let acc1 = acc + tokens_forest(b, p, init, ws, true);
    if let NodeV::Element { name, children } = cs.last() {
        let t = empty_tag(name, ws);
        assert(r =~= r0 + t);
        assert(r.subrange(l0, l0 + t.len()) =~= t);
        lemma_sub_piece(b, p, r, l0, t);
        lemma_empty_tag_step(b, q, name, ws, acc1);
        let nm = span(b, q + 1, q + 1 + name.len());
        assert(acc1.push(TokenV::StartTag(nm)).push(TokenV::EndTag(nm)) =~= acc + tokens_forest(
            b,
            p,
            cs,
            ws,
            true,
        ));
    }
}

#[verifier::rlimit(60)]
proof fn lemma_content_forest(
    b: Seq<u8>,
    p: int,
    cs: Seq<NodeV>,
    ws: Seq<u8>,
    short: bool,
    acc: Seq<TokenV>,
)
    requires
        element_forest(cs),
        xml_spaces(ws),
        0 <= p,
        p + render_forest(cs, ws, short).len() <= b.len(),
        b.subrange(p, p + render_forest(cs, ws, short).len()) == render_forest(cs, ws, short),
    ensures
        content_at(b, p, acc) == content_at(
            b,
            p + render_forest(cs, ws, short).len(),
            acc + tokens_forest(b, p, cs, ws, short),
        ),
    decreases cs,
{
    if cs.len() == 0 {
        assert(acc + tokens_forest(b, p, cs, ws, short) =~= acc);
    } else {
        let init = cs.drop_last();
        let r = render_forest(cs, ws, short);
        let r0 = render_forest(init, ws, short);
        let l0: int = r0.len() as int;
        assert(r.subrange(0, l0) =~= r0);
        lemma_sub_piece(b, p, r, 0, r0);
        assert(p + 0 == p);
        lemma_content_forest(b, p, init, ws, short, acc);
        let q = p + l0;
        let acc1 = acc + tokens_forest(b, p, init, ws, short);
        if let NodeV::Element { name, children } = cs.last() {
          if short && children.len() == 0 {
            lemma_content_last_empty(b, p, cs, ws, acc);
          } else {
            let rc = render_forest(children, ws, short);
            let o = open_tag(name, ws);
            let cl = close_tag(name, ws);
            let lo: int = o.len() as int;
            let lc: int = rc.len() as int;
            let c = q + lo;
            let e = c + lc;
            assert(r =~= r0 + (o + rc + cl));
            assert(r.subrange(l0, l0 + lo) =~= o);
            lemma_sub_piece(b, p, r, l0, o);
            lemma_open_tag_step(b, q, name, ws, acc1);
            let st = TokenV::StartTag(span(b, q + 1, q + 1 + name.len()));
            let acc2 = acc1.push(st);
            assert(r.subrange(l0 + lo, l0 + lo + lc) =~= rc);
            lemma_sub_piece(b, p, r, l0 + lo, rc);
            lemma_content_forest(b, c, children, ws, short, acc2);
            let acc3 = acc2 + tokens_forest(b, c, children, ws, short);
            assert(r.subrange(l0 + lo + lc, r.len() as int) =~= cl);
            lemma_sub_piece(b, p, r, l0 + lo + lc, cl);
            lemma_close_tag_step(b, e, name, ws, acc3);
            let et = TokenV::EndTag(span(b, e + 2, e + 2 + name.len()));
            assert(acc3.push(et) =~= acc + tokens_forest(b, p, cs, ws, short));
          }
        }
    }
}

/// An empty-element tag's two tokens add a childless element to the innermost open one.
proof fn lemma_run_empty_element(ts: Seq<TokenV>, j: int, st1: BuildState, nm: crate::textrange::Span)
    requires
        0 <= j,
        j + 2 <= ts.len(),
        ts[j] == TokenV::StartTag(nm),
        ts[j + 1] == TokenV::EndTag(nm),
        st1.stack.len() > 0,
    ensures
        run(ts, j, st1) == run(
            ts,
            j + 2,
            add_child(st1, NodeV::Element { name: nm.text, children: seq![] }),
        ),
{
    let st2 = BuildState {
        stack: st1.stack.push(Frame { name: nm, children: seq![] }),
        root: st1.root,
    };
    assert(step(st1, TokenV::StartTag(nm)) == Ok::<BuildState, ErrV>(st2));
    assert(st2.stack.drop_last() =~= st1.stack);
    assert(run(ts, j, st1) == run(ts, j + 1, st2));
}

proof fn lemma_run_forest(
    ts: Seq<TokenV>,
    i: int,
    st: BuildState,
    b: Seq<u8>,
    p: int,
    cs: Seq<NodeV>,
    ws: Seq<u8>,
    short: bool,
)
    requires
        element_forest(cs),
        xml_spaces(ws),
        st.stack.len() > 0,
        0 <= p,
        p + render_forest(cs, ws, short).len() <= b.len(),
        b.subrange(p, p + render_forest(cs, ws, short).len()) == render_forest(cs, ws, short),
        0 <= i,
        i + tokens_forest(b, p, cs, ws, short).len() <= ts.len(),
        ts.subrange(i, i + tokens_forest(b, p, cs, ws, short).len()) == tokens_forest(b, p, cs, ws, short),
    ensures
        run(ts, i, st) == run(ts, i + tokens_forest(b, p, cs, ws, short).len(), add_children(st, cs)),
    decreases cs,
{
    if cs.len() > 0 {
        let init = cs.drop_last();
        let r = render_forest(cs, ws, short);
        let r0 = render_forest(init, ws, short);
        let l0: int = r0.len() as int;
        let t = tokens_forest(b, p, cs, ws, short);
        let t0 = tokens_forest(b, p, init, ws, short);
        let lt0: int = t0.len() as int;
        assert(r.subrange(0, l0) =~= r0);
        lemma_sub_piece(b, p, r, 0, r0);
        assert(p + 0 == p);
        if let NodeV::Element { name, children } = cs.last() {
          let q = p + l0;
          if short && children.len() == 0 {
            let te = empty_tag(name, ws);
            let nm = span(b, q + 1, q + 1 + name.len());
            assert(t =~= t0 + seq![TokenV::StartTag(nm), TokenV::EndTag(nm)]);
            assert(ts.subrange(i, i + lt0) =~= t0) by {
                assert forall|k: int| 0 <= k < lt0 implies #[trigger] ts.subrange(i, i + lt0)[k]
                    == t0[k] by {
                    assert(ts.subrange(i, i + t.len())[k] == t[k]);
                }
            }
            lemma_run_forest(ts, i, st, b, p, init, ws, short);
            lemma_add_children(st, init);
            assert(ts[i + lt0] == TokenV::StartTag(nm)) by {
                assert(ts.subrange(i, i + t.len())[lt0] == t[lt0]);
            }
            assert(ts[i + lt0 + 1] == TokenV::EndTag(nm)) by {
                assert(ts.subrange(i, i + t.len())[lt0 + 1] == t[lt0 + 1]);
            }
            assert(r =~= r0 + te);
            assert(r.subrange(l0, l0 + te.len()) =~= te);
            lemma_sub_piece(b, p, r, l0, te);
            assert(te.subrange(1, 1 + name.len() as int) =~= name);
            lemma_sub_piece(b, q, te, 1, name);
            assert(children =~= Seq::<NodeV>::empty());
            lemma_run_empty_element(ts, i + lt0, add_children(st, init), nm);
          } else {
            let rc = render_forest(children, ws, short);
            let o = open_tag(name, ws);
            let cl = close_tag(name, ws);
            let lo: int = o.len() as int;
            let lc: int = rc.len() as int;
            let c = q + lo;
            let e = c + lc;
            let tc = tokens_forest(b, c, children, ws, short);
            let ltc: int = tc.len() as int;
            let sp = span(b, q + 1, q + 1 + name.len());
            let sp2 = span(b, e + 2, e + 2 + name.len());
            assert(t =~= t0 + (seq![TokenV::StartTag(sp)] + tc + seq![TokenV::EndTag(sp2)]));
            assert(ts.subrange(i, i + lt0) =~= t0) by {
                assert forall|k: int| 0 <= k < lt0 implies #[trigger] ts.subrange(i, i + lt0)[k]
                    == t0[k] by {
                    assert(ts.subrange(i, i + t.len())[k] == t[k]);
                }
            }
            lemma_run_forest(ts, i, st, b, p, init, ws, short);
            let st1 = add_children(st, init);
            lemma_add_children(st, init);
            let j = i + lt0;
            assert(ts[j] == TokenV::StartTag(sp)) by {
                assert(ts.subrange(i, i + t.len())[lt0] == t[lt0]);
            }
            // the names that the two tags carry
            assert(r =~= r0 + (o + rc + cl));
            assert(r.subrange(l0, l0 + lo) =~= o);
            lemma_sub_piece(b, p, r, l0, o);
            assert(o.subrange(1, 1 + name.len() as int) =~= name);
            lemma_sub_piece(b, q, o, 1, name);
            assert(r.subrange(l0 + lo + lc, r.len() as int) =~= cl);
            lemma_sub_piece(b, p, r, l0 + lo + lc, cl);
            assert(cl.subrange(2, 2 + name.len() as int) =~= name);
            lemma_sub_piece(b, e, cl, 2, name);
            assert(sp.text == name);
            assert(sp2.text == name);
            let st2 = BuildState {
                stack: st1.stack.push(Frame { name: sp, children: seq![] }),
                root: st1.root,
            };
            assert(step(st1, TokenV::StartTag(sp)) == Ok::<BuildState, ErrV>(st2));
            assert(run(ts, j, st1) == run(ts, j + 1, st2));
            assert(r.subrange(l0 + lo, l0 + lo + lc) =~= rc);
            lemma_sub_piece(b, p, r, l0 + lo, rc);
            assert(ts.subrange(j + 1, j + 1 + ltc) =~= tc) by {
                assert forall|k: int| 0 <= k < ltc implies #[trigger] ts.subrange(
                    j + 1,
                    j + 1 + ltc,
                )[k] == tc[k] by {
                    assert(ts.subrange(i, i + t.len())[lt0 + 1 + k] == t[lt0 + 1 + k]);
                }
            }
            lemma_run_forest(ts, j + 1, st2, b, c, children, ws, short);
            let st3 = add_children(st2, children);
            lemma_add_children(st2, children);
            let k = j + 1 + ltc;
            assert(ts[k] == TokenV::EndTag(sp2)) by {
                assert(ts.subrange(i, i + t.len())[lt0 + 1 + ltc] == t[lt0 + 1 + ltc]);
            }
            assert(seq![] + children =~= children);
            assert(st3.stack.drop_last() =~= st1.stack);
            assert(step(st3, TokenV::EndTag(sp2)) == Ok::<BuildState, ErrV>(
                add_children(st, cs),
            ));
          }
        }
    }
}

/// A single element without children, written as an empty-element tag, parses back to itself.
proof fn lemma_empty_root_round_trip(n: NodeV, ws: Seq<u8>)
    requires
        element_forest(seq![n]),
        xml_spaces(ws),
        n matches NodeV::Element { children, .. } && children.len() == 0,
    ensures
        parse_spec(render_forest(seq![n], ws, true)) == Ok::<NodeV, ErrV>(n),
{
    let short = true;
    let cs = seq![n];
    let b = render_forest(cs, ws, short);
    assert(cs.drop_last() =~= Seq::<NodeV>::empty());
    assert(cs.last() == n);
    if let NodeV::Element { name, children } = n {
        let te = empty_tag(name, ws);
        assert(render_forest(cs.drop_last(), ws, short) == Seq::<u8>::empty());
        assert(b == Seq::<u8>::empty() + te);
        assert(b =~= te);
        reveal(prolog_at);
        assert(b[0] == LT);
        assert(b[1] == name[0]);
        assert(!test_at(b, 0, crate::grammar::XML_DECL_OPEN@));
        assert(!test_at(b, 0, crate::grammar::COMMENT_OPEN@));
        assert(!test_at(b, 0, crate::grammar::PI_OPEN@));
        assert(!test_at(b, 0, crate::grammar::DOCTYPE_OPEN@));
        assert(misc_run(b, 0, seq![]) == Ok::<(Seq<TokenV>, int), ErrV>((seq![], 0)));
        assert(prolog_at(b, 0) == Ok::<(Seq<TokenV>, int), ErrV>((seq![], 0)));
        assert(b.subrange(0, b.len() as int) =~= b);
        lemma_content_forest(b, 0, cs, ws, short, seq![]);
        let toks = tokens_forest(b, 0, cs, ws, short);
        assert(seq![] + toks =~= toks);
        assert(tokenize_spec(b) == Ok::<Seq<TokenV>, ErrV>(toks));
        let nm = span(b, 1, 1 + name.len() as int);
        assert(tokens_forest(b, 0, cs.drop_last(), ws, short) == Seq::<TokenV>::empty());
        assert(toks == Seq::<TokenV>::empty() + seq![TokenV::StartTag(nm), TokenV::EndTag(nm)]);
        assert(toks =~= seq![TokenV::StartTag(nm), TokenV::EndTag(nm)]);
        assert(b.subrange(1, 1 + name.len() as int) =~= name) by {
            assert forall|k: int| 0 <= k < name.len() implies #[trigger] b.subrange(
                1,
                1 + name.len() as int,
            )[k] == name[k] by {
                assert(b[1 + k] == te[1 + k]);
            }
        }
        let st1 = BuildState { stack: seq![Frame { name: nm, children: seq![] }], root: None };
        assert(step(empty_state(), TokenV::StartTag(nm)) == Ok::<BuildState, ErrV>(st1)) by {
            assert(empty_state().stack.push(Frame { name: nm, children: seq![] }) =~= st1.stack);
        }
        let fin = BuildState { stack: seq![], root: Some(n) };
        assert(children =~= Seq::<NodeV>::empty());
        assert(st1.stack.drop_last() =~= Seq::<Frame>::empty());
        assert(step(st1, TokenV::EndTag(nm)) == Ok::<BuildState, ErrV>(fin));
        assert(run(toks, 0, empty_state()) == run(toks, 1, st1));
        assert(run(toks, 1, st1) == run(toks, 2, fin));
        assert(run(toks, 2, fin) == Ok::<BuildState, ErrV>(fin));
    }
}

/// A tree of elements with ASCII names, written out as start tags, children and end tags
/// (childless elements as empty-element tags when `short` holds), with the same whitespace
/// `ws` (none, or any) before the `>` or `/>` of every tag, parses back to the same tree: the
/// same names, nested the same way.
pub proof fn lemma_element_tree_round_trip(n: NodeV, ws: Seq<u8>, short: bool)
    requires
        element_forest(seq![n]),
        xml_spaces(ws),
    ensures
        parse_spec(render_forest(seq![n], ws, short)) == Ok::<NodeV, ErrV>(n),
{
    let cs = seq![n];
    let b = render_forest(cs, ws, short);
    assert(cs.drop_last() =~= Seq::<NodeV>::empty());
    assert(cs.last() == n);
    if let NodeV::Element { name, children } = n {
      if short && children.len() == 0 {
        lemma_empty_root_round_trip(n, ws);
      } else {
        let rc = render_forest(children, ws, short);
        let o = open_tag(name, ws);
        let cl = close_tag(name, ws);
        let lo: int = o.len() as int;
        let lc: int = rc.len() as int;
        assert(render_forest(cs.drop_last(), ws, short) == Seq::<u8>::empty());
        assert(b == Seq::<u8>::empty() + (o + rc + cl));
        assert(b =~= o + rc + cl);
        // the prolog is empty
        reveal(prolog_at);
        assert(b[0] == LT);
        assert(b[1] == name[0]);
        assert(!test_at(b, 0, crate::grammar::XML_DECL_OPEN@));
        assert(!test_at(b, 0, crate::grammar::COMMENT_OPEN@));
        assert(!test_at(b, 0, crate::grammar::PI_OPEN@));
        assert(!test_at(b, 0, crate::grammar::DOCTYPE_OPEN@));
        assert(misc_run(b, 0, seq![]) == Ok::<(Seq<TokenV>, int), ErrV>((seq![], 0)));
        assert(prolog_at(b, 0) == Ok::<(Seq<TokenV>, int), ErrV>((seq![], 0)));
        // the content
        assert(b.subrange(0, b.len() as int) =~= b);
        lemma_content_forest(b, 0, cs, ws, short, seq![]);
        let toks = tokens_forest(b, 0, cs, ws, short);
        assert(seq![] + toks =~= toks);
        assert(tokenize_spec(b) == Ok::<Seq<TokenV>, ErrV>(toks));
        // the tree
        let c: int = lo;
        let e: int = c + lc;
        let tc = tokens_forest(b, c, children, ws, short);
        let lt: int = tc.len() as int;
        let sp = span(b, 1, 1 + name.len() as int);
        let sp2 = span(b, e + 2, e + 2 + name.len());
        assert(tokens_forest(b, 0, cs.drop_last(), ws, short) == Seq::<TokenV>::empty());
        assert(toks == Seq::<TokenV>::empty() + (seq![TokenV::StartTag(sp)] + tc + seq![
            TokenV::EndTag(sp2),
        ]));
        assert(toks =~= seq![TokenV::StartTag(sp)] + tc + seq![TokenV::EndTag(sp2)]);
        assert(o.subrange(1, 1 + name.len() as int) =~= name);
        assert(b.subrange(0, lo) =~= o);
        lemma_sub_piece(b, 0, o, 1, name);
        assert(b.subrange(e, b.len() as int) =~= cl);
        assert(cl.subrange(2, 2 + name.len() as int) =~= name);
        assert(b.subrange(e, e + cl.len()) =~= cl);
        lemma_sub_piece(b, e, cl, 2, name);
        let st1 = BuildState { stack: seq![Frame { name: sp, children: seq![] }], root: None };
        assert(step(empty_state(), TokenV::StartTag(sp)) == Ok::<BuildState, ErrV>(st1)) by {
            assert(empty_state().stack.push(Frame { name: sp, children: seq![] }) =~= st1.stack);
        }
        assert(run(toks, 0, empty_state()) == run(toks, 1, st1));
        assert(b.subrange(c, c + lc) =~= rc);
        assert(toks.subrange(1, 1 + lt) =~= tc);
        lemma_run_forest(toks, 1, st1, b, c, children, ws, short);
        let st3 = add_children(st1, children);
        lemma_add_children(st1, children);
        assert(seq![] + children =~= children);
        assert(toks[1 + lt] == TokenV::EndTag(sp2));
        let fin = BuildState { stack: seq![], root: Some(n) };
        assert(st3.stack.drop_last() =~= Seq::<Frame>::empty());
        assert(step(st3, TokenV::EndTag(sp2)) == Ok::<BuildState, ErrV>(fin));
        assert(run(toks, 1 + lt, st3) == run(toks, toks.len() as int, fin));
        assert(run(toks, toks.len() as int, fin) == Ok::<BuildState, ErrV>(fin));
      }
    }
}

/// Whitespace before the `>` of the tags does not change the tree: a tree of elements
/// written with whitespace `ws1` and with whitespace `ws2` parses to the same result, and so
/// does writing its childless elements as empty-element tags or not.
pub proof fn lemma_tag_whitespace_insensitive(
    n: NodeV,
    ws1: Seq<u8>,
    ws2: Seq<u8>,
    short: bool,
)
    requires
        element_forest(seq![n]),
        xml_spaces(ws1),
        xml_spaces(ws2),
    ensures
        parse_spec(render_forest(seq![n], ws1, short)) == parse_spec(
            render_forest(seq![n], ws2, !short),
        ),
{
    lemma_element_tree_round_trip(n, ws1, short);
    lemma_element_tree_round_trip(n, ws2, !short);
}

} // verus!
