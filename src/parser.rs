use vstd::prelude::*;

use crate::attributes::{attr_insert, AttrView, Attributes};
use crate::bytes::Bytes;
use crate::node::{tag_kids, HTMLTag, Node, NodeHandle};
use crate::simd::find;
use crate::util::{
    bytes_eq_ignore_case, eq_ignore_case, is_ident, is_space, spec_is_ident, spec_is_space, BANG,
    DASH, DQUOTE, EQ, GT, LT, SLASH, SQUOTE,
};

verus! {

/// Names of elements that never have children (`area`, `br`, `img`, ...), in any case.
pub open spec fn spec_is_void_name(n: Seq<u8>) -> bool {
    eq_ignore_case(n, seq![97u8, 114u8, 101u8, 97u8]) ||  // "area"
        eq_ignore_case(n, seq![98u8, 97u8, 115u8, 101u8]) ||  // "base"
        eq_ignore_case(n, seq![98u8, 114u8]) ||  // "br"
        eq_ignore_case(n, seq![99u8, 111u8, 108u8]) ||  // "col"
        eq_ignore_case(n, seq![101u8, 109u8, 98u8, 101u8, 100u8]) ||  // "embed"
        eq_ignore_case(n, seq![104u8, 114u8]) ||  // "hr"
        eq_ignore_case(n, seq![105u8, 109u8, 103u8]) ||  // "img"
        eq_ignore_case(n, seq![105u8, 110u8, 112u8, 117u8, 116u8]) ||  // "input"
        eq_ignore_case(n, seq![108u8, 105u8, 110u8, 107u8]) ||  // "link"
        eq_ignore_case(n, seq![109u8, 101u8, 116u8, 97u8]) ||  // "meta"
        eq_ignore_case(n, seq![112u8, 97u8, 114u8, 97u8, 109u8]) ||  // "param"
        eq_ignore_case(n, seq![115u8, 111u8, 117u8, 114u8, 99u8, 101u8]) ||  // "source"
        eq_ignore_case(n, seq![116u8, 114u8, 97u8, 99u8, 107u8]) ||  // "track"
        eq_ignore_case(n, seq![119u8, 98u8, 114u8])  // "wbr"
}

/// Names of elements whose body is text up to their closing tag (`script`, `style`,
/// `title`, `textarea`), in any case.
pub open spec fn spec_is_raw_text_name(n: Seq<u8>) -> bool {
    eq_ignore_case(n, seq![115u8, 99u8, 114u8, 105u8, 112u8, 116u8]) ||  // "script"
        eq_ignore_case(n, seq![115u8, 116u8, 121u8, 108u8, 101u8]) ||  // "style"
        eq_ignore_case(n, seq![116u8, 105u8, 116u8, 108u8, 101u8]) ||  // "title"
        eq_ignore_case(n, seq![116u8, 101u8, 120u8, 116u8, 97u8, 114u8, 101u8, 97u8])  // "textarea"
}

/// Whether `n` names a void element.
pub fn is_void_name(n: &[u8]) -> (r: bool)
    ensures
        r == spec_is_void_name(n@),
{
    bytes_eq_ignore_case(n, &[97u8, 114u8, 101u8, 97u8]) ||  // "area"
        bytes_eq_ignore_case(n, &[98u8, 97u8, 115u8, 101u8]) ||  // "base"
        bytes_eq_ignore_case(n, &[98u8, 114u8]) ||  // "br"
        bytes_eq_ignore_case(n, &[99u8, 111u8, 108u8]) ||  // "col"
        bytes_eq_ignore_case(n, &[101u8, 109u8, 98u8, 101u8, 100u8]) ||  // "embed"
        bytes_eq_ignore_case(n, &[104u8, 114u8]) ||  // "hr"
        bytes_eq_ignore_case(n, &[105u8, 109u8, 103u8]) ||  // "img"
        bytes_eq_ignore_case(n, &[105u8, 110u8, 112u8, 117u8, 116u8]) ||  // "input"
        bytes_eq_ignore_case(n, &[108u8, 105u8, 110u8, 107u8]) ||  // "link"
        bytes_eq_ignore_case(n, &[109u8, 101u8, 116u8, 97u8]) ||  // "meta"
        bytes_eq_ignore_case(n, &[112u8, 97u8, 114u8, 97u8, 109u8]) ||  // "param"
        bytes_eq_ignore_case(n, &[115u8, 111u8, 117u8, 114u8, 99u8, 101u8]) ||  // "source"
        bytes_eq_ignore_case(n, &[116u8, 114u8, 97u8, 99u8, 107u8]) ||  // "track"
        bytes_eq_ignore_case(n, &[119u8, 98u8, 114u8])  // "wbr"
}

/// Whether `n` names a raw-text element.
pub fn is_raw_text_name(n: &[u8]) -> (r: bool)
    ensures
        r == spec_is_raw_text_name(n@),
{
    bytes_eq_ignore_case(n, &[115u8, 99u8, 114u8, 105u8, 112u8, 116u8]) ||  // "script"
        bytes_eq_ignore_case(n, &[115u8, 116u8, 121u8, 108u8, 101u8]) ||  // "style"
        bytes_eq_ignore_case(n, &[116u8, 105u8, 116u8, 108u8, 101u8]) ||  // "title"
        bytes_eq_ignore_case(n, &[116u8, 101u8, 120u8, 116u8, 97u8, 114u8, 101u8, 97u8])  // "textarea"
}

/// The node arena of a document: every node in document order, with the parent of each.
pub struct Parser<'a> {
    pub tags: Vec<Node<'a>>,
    pub parents: Vec<Option<u32>>,
}


/// Document type declarations that are told apart.
#[derive(Clone, Copy, Debug, PartialEq, Eq, Structural)]
pub enum HTMLVersion {
    /// `<!DOCTYPE html>`
    HTML5,
    /// HTML 4.01 strict
    StrictHTML401,
    /// HTML 4.01 transitional
    TransitionalHTML401,
    /// HTML 4.01 frameset
    FramesetHTML401,
    /// XHTML
    XHTML,
}

/// Settings for parsing a document.
///
/// `track_ids` and `track_classes` are recorded with the document but build no id or class
/// index: `VDom::get_element_by_id` and `VDom::get_elements_by_class_name` always scan the
/// arena in document order, so the options do not change any result.
#[derive(Clone, Copy, Debug, PartialEq, Eq, Structural)]
pub struct ParserOptions {
    pub track_ids: bool,
    pub track_classes: bool,
}

impl ParserOptions {
    /// Options with no tracking.
    pub fn new() -> (r: ParserOptions)
        ensures
            !r.track_ids && !r.track_classes,
    {
        ParserOptions { track_ids: false, track_classes: false }
    }

    /// The same options with id tracking requested; see the note on `ParserOptions`.
    pub fn track_ids(self) -> (r: ParserOptions)
        ensures
            r.track_ids && r.track_classes == self.track_classes,
    {
        ParserOptions { track_ids: true, track_classes: self.track_classes }
    }

    /// The same options with class tracking requested; see the note on `ParserOptions`.
    pub fn track_classes(self) -> (r: ParserOptions)
        ensures
            r.track_classes && r.track_ids == self.track_ids,
    {
        ParserOptions { track_ids: self.track_ids, track_classes: true }
    }

    /// Whether id tracking was requested.
    pub fn is_tracking_ids(&self) -> (r: bool)
        ensures
            r == self.track_ids,
    {
        self.track_ids
    }

    /// Whether class tracking was requested.
    pub fn is_tracking_classes(&self) -> (r: bool)
        ensures
            r == self.track_classes,
    {
        self.track_classes
    }
}

impl Default for ParserOptions {
    fn default() -> (r: ParserOptions)
        ensures
            !r.track_ids && !r.track_classes,
    {
        ParserOptions::new()
    }
}

/// Largest input, in bytes, that a document may be parsed from: handles are 32-bit.
pub const MAX_INPUT: usize = 4294967295;

/// The arena is well formed: a parent comes before its child, and each tag's children come
/// after it, lie in the arena and name it as their parent.
pub open spec fn arena_wf<'a>(tags: Seq<Node<'a>>, parents: Seq<Option<u32>>) -> bool {
    &&& tags.len() == parents.len()
    &&& forall|j: int| 0 <= j < parents.len() && (#[trigger] parents[j]) is Some ==> parents[j]->0 < j
    &&& forall|j: int, k: int|
        0 <= j < tags.len() && 0 <= k < tag_kids(tags[j]).len() ==> kid_ok(
            tags,
            parents,
            j,
            #[trigger] tag_kids(tags[j])[k],
        )
}

/// `c` is a valid child of node `j`.
pub open spec fn kid_ok<'a>(tags: Seq<Node<'a>>, parents: Seq<Option<u32>>, j: int, c: NodeHandle) -> bool {
    j < c.0 < tags.len() && parents[c.0 as int] == Some(j as u32)
}

/// Every root handle lies in the arena.
pub open spec fn roots_wf<'a>(tags: Seq<Node<'a>>, roots: Seq<NodeHandle>) -> bool {
    forall|k: int| 0 <= k < roots.len() ==> (#[trigger] roots[k]).0 < tags.len()
}

/// `b` occurs in `input` at some position.
pub open spec fn slice_of(input: Seq<u8>, b: Seq<u8>) -> bool {
    exists|a: int| 0 <= a && a + b.len() <= input.len() && #[trigger] input.subrange(a, a + b.len()) == b
}

/// The node's bytes come from `input`: a tag's source span is the input from its start offset
/// and begins with `<` and the tag's name, a non-empty run of identifier bytes; a text node is a run of the input, and a
/// comment is a run of the input that begins with `<!--`.
pub open spec fn node_in_input<'a>(n: Node<'a>, input: Seq<u8>) -> bool {
    match n {
        Node::Tag(t) => {
            &&& t._start + t._raw@.len() <= input.len()
            &&& t._raw@ == input.subrange(t._start as int, t._start + t._raw@.len())
            &&& t._raw@.len() > 0
            &&& t._raw@[0] == 60
            &&& 0 < t._name@.len() && 1 + t._name@.len() <= t._raw@.len()
            &&& t._raw@.subrange(1, 1 + t._name@.len() as int) == t._name@
            &&& forall|k: int| 0 <= k < t._name@.len() ==> spec_is_ident(#[trigger] t._name@[k])
        },
        Node::Raw(b) => slice_of(input, b@),
        Node::Comment(b) => slice_of(input, b@) && b@.len() >= 4 && b@.subrange(0, 4) == seq![
            60u8,
            33u8,
            45u8,
            45u8,
        ],
    }
}


/// A tag as plain values.
pub struct TagView {
    pub name: Seq<u8>,
    pub attrs: Seq<AttrView>,
    pub children: Seq<NodeHandle>,
    pub raw: Seq<u8>,
    pub start: int,
}

/// A node as plain values.
pub enum NodeView {
    Tag(TagView),
    Raw(Seq<u8>),
    Comment(Seq<u8>),
}

pub open spec fn node_view<'a>(n: Node<'a>) -> NodeView {
    match n {
        Node::Tag(t) => NodeView::Tag(
            TagView {
                name: t._name@,
                attrs: t._attributes@,
                children: t._children@,
                raw: t._raw@,
                start: t._start as int,
            },
        ),
        Node::Raw(b) => NodeView::Raw(b@),
        Node::Comment(b) => NodeView::Comment(b@),
    }
}

/// An element whose closing tag has not been seen yet, as plain values: its handle, name,
/// attributes, the children found so far, and where its opening tag starts.
pub struct FrameView {
    pub handle: int,
    pub name: Seq<u8>,
    pub attrs: Seq<AttrView>,
    pub children: Seq<NodeHandle>,
    pub start: int,
}

/// The state of a parse: the position reached, the nodes so far (an element still open holds
/// an empty text node in its place), the parent of each, the top-level handles, the open
/// elements from the outermost in, and the declared version.
pub struct ParseState {
    pub pos: int,
    pub nodes: Seq<NodeView>,
    pub parents: Seq<Option<u32>>,
    pub roots: Seq<NodeHandle>,
    pub stack: Seq<FrameView>,
    pub version: Option<HTMLVersion>,
}

/// The state with the position moved to `pos`.
pub open spec fn st_at(st: ParseState, pos: int) -> ParseState {
    ParseState { pos, nodes: st.nodes, parents: st.parents, roots: st.roots, stack: st.stack, version: st.version }
}

/// Appends a childless node under the innermost open element, or at the top level.
pub open spec fn st_add(st: ParseState, n: NodeView) -> ParseState {
    let h = NodeHandle(st.nodes.len() as u32);
    if st.stack.len() == 0 {
        ParseState {
            pos: st.pos,
            nodes: st.nodes.push(n),
            parents: st.parents.push(None),
            roots: st.roots.push(h),
            stack: st.stack,
            version: st.version,
        }
    } else {
        let f = st.stack.last();
        ParseState {
            pos: st.pos,
            nodes: st.nodes.push(n),
            parents: st.parents.push(Some(f.handle as u32)),
            roots: st.roots,
            stack: st.stack.update(
                st.stack.len() - 1,
                FrameView { handle: f.handle, name: f.name, attrs: f.attrs, children: f.children.push(h), start: f.start },
            ),
            version: st.version,
        }
    }
}

/// Opens an element.
pub open spec fn st_push(st: ParseState, f: FrameView) -> ParseState {
    ParseState { pos: st.pos, nodes: st.nodes, parents: st.parents, roots: st.roots, stack: st.stack.push(f), version: st.version }
}

/// Closes the innermost open element, whose source span ends at `end`.
pub open spec fn st_close(st: ParseState, d: Seq<u8>, end: int) -> ParseState {
    let f = st.stack.last();
    ParseState {
        pos: st.pos,
        nodes: st.nodes.update(
            f.handle,
            NodeView::Tag(TagView { name: f.name, attrs: f.attrs, children: f.children, raw: d.subrange(f.start, end), start: f.start }),
        ),
        parents: st.parents,
        roots: st.roots,
        stack: st.stack.drop_last(),
        version: st.version,
    }
}

/// Past the next `>` at or after `j`, or the end.
pub open spec fn past_gt(d: Seq<u8>, j: int) -> int {
    let g = byte_from(d, j, 62);
    if g < d.len() { g + 1 } else { g }
}

pub open spec fn comment_at(d: Seq<u8>, i: int) -> bool {
    0 <= i && d.len() - i > 3 && d[i] == 60 && d[i + 1] == 33 && d[i + 2] == 45 && d[i + 3] == 45
}

pub open spec fn declaration_at(d: Seq<u8>, i: int) -> bool {
    0 <= i && i + 1 < d.len() && d[i] == 60 && d[i + 1] == 33 && doctype_start(d, i)
}

pub open spec fn closing_at(d: Seq<u8>, i: int) -> bool {
    0 <= i && i + 1 < d.len() && d[i] == 60 && d[i + 1] == 47
}

pub open spec fn opening_at(d: Seq<u8>, i: int) -> bool {
    0 <= i && i + 1 < d.len() && d[i] == 60 && spec_is_ident(d[i + 1])
}

/// One step of the parse at `st.pos` (before the end of `d`):
/// - `<!--`: a comment up to and including the next `-->`, or to the end;
/// - `<!DOCTYPE`: the version named up to the next `>`, and no node;
/// - `</name`: skipped up to its `>` where the name is empty, void, or nothing is open;
///   where it closes the innermost open element (in any case) that element ends after the
///   `>`; otherwise the innermost element ends here and the closing tag is read again;
/// - `<` and an identifier byte: an opening tag with its attributes. A void or self-closing
///   tag has no children; a raw-text element takes the text up to its closing tag as its one
///   child; any other element stays open;
/// - anything else: text up to the next `<` after the first byte.
pub open spec fn spec_step(d: Seq<u8>, st: ParseState) -> ParseState {
    let i = st.pos;
    let len = d.len() as int;
    if comment_at(d, i) {
        let end = comment_from(d, i + 4);
        st_at(st_add(st, NodeView::Comment(d.subrange(i, end))), end)
    } else if declaration_at(d, i) {
        let cs = space_from(d, i + 9);
        let gt = byte_from(d, cs, 62);
        ParseState {
            pos: if gt < len { gt + 1 } else { gt },
            nodes: st.nodes,
            parents: st.parents,
            roots: st.roots,
            stack: st.stack,
            version: spec_doctype(d.subrange(cs, gt)),
        }
    } else if closing_at(d, i) {
        let ne = ident_from(d, i + 2);
        let name = d.subrange(i + 2, ne);
        let end = past_gt(d, ne);
        if name.len() == 0 || spec_is_void_name(name) || st.stack.len() == 0 {
            st_at(st, end)
        } else if eq_ignore_case(st.stack.last().name, name) {
            st_at(st_close(st, d, end), end)
        } else {
            st_close(st, d, i)
        }
    } else if opening_at(d, i) {
        let ne = ident_from(d, i + 1);
        let name = d.subrange(i + 1, ne);
        let (attrs, self_closing, end) = attrs_from(d, ne, Seq::empty());
        if self_closing || spec_is_void_name(name) {
            st_at(
                st_add(st, NodeView::Tag(TagView { name, attrs, children: Seq::empty(), raw: d.subrange(i, end), start: i })),
                end,
            )
        } else {
            let h = st.nodes.len() as int;
            let s2 = st_push(st_add(st, NodeView::Raw(Seq::empty())), FrameView { handle: h, name, attrs, children: Seq::empty(), start: i });
            if spec_is_raw_text_name(name) {
                let close_at = closer_from(d, end, name);
                let body_end = match close_at {
                    Some(k) => k,
                    None => len,
                };
                let s3 = if body_end > end { st_add(s2, NodeView::Raw(d.subrange(end, body_end))) } else { s2 };
                let tag_end = match close_at {
                    Some(k) => past_gt(d, k + 2 + name.len()),
                    None => len,
                };
                st_at(st_close(s3, d, tag_end), tag_end)
            } else {
                st_at(s2, end)
            }
        }
    } else {
        let end = byte_from(d, i + 1, 60);
        st_at(st_add(st, NodeView::Raw(d.subrange(i, end))), end)
    }
}

/// Closes every open element at the end of the input.
pub open spec fn spec_close_all(d: Seq<u8>, st: ParseState) -> ParseState
    decreases st.stack.len(),
{
    if st.stack.len() > 0 {
        spec_close_all(d, st_close(st, d, d.len() as int))
    } else {
        st
    }
}

/// Steps from `st` until the end of the input, then closes what is open.
pub open spec fn spec_run(d: Seq<u8>, st: ParseState) -> ParseState
    decreases d.len() - st.pos, st.stack.len(),
{
    if 0 <= st.pos < d.len() {
        let s2 = spec_step(d, st);
        if (st.pos < s2.pos <= d.len()) || (s2.pos == st.pos && s2.stack.len() < st.stack.len()) {
            spec_run(d, s2)
        } else {
            st
        }
    } else {
        spec_close_all(d, st)
    }
}

/// The tree that `d` parses to.
pub open spec fn spec_parse(d: Seq<u8>) -> ParseState {
    spec_run(
        d,
        ParseState { pos: 0, nodes: Seq::empty(), parents: Seq::empty(), roots: Seq::empty(), stack: Seq::empty(), version: None },
    )
}

/// An element whose closing tag has not been seen yet.
struct Frame<'a> {
    handle: usize,
    name: &'a [u8],
    attributes: Attributes<'a>,
    children: Vec<NodeHandle>,
    start: usize,
}

spec fn frame_ok<'a>(f: Frame<'a>, tags: Seq<Node<'a>>, parents: Seq<Option<u32>>, pos: int) -> bool {
    &&& f.handle < tags.len()
    &&& f.start + 1 + f.name@.len() <= pos
    &&& forall|k: int| 0 <= k < f.children@.len() ==> kid_ok(tags, parents, f.handle as int, #[trigger] f.children@[k])
}

/// The state of a parse in progress.
struct Builder<'a> {
    tags: Vec<Node<'a>>,
    parents: Vec<Option<u32>>,
    roots: Vec<NodeHandle>,
    stack: Vec<Frame<'a>>,
}

spec fn builder_wf<'a>(b: Builder<'a>, pos: int) -> bool {
    &&& arena_wf(b.tags@, b.parents@)
    &&& roots_wf(b.tags@, b.roots@)
    &&& b.tags@.len() <= pos
    &&& forall|k: int| 0 <= k < b.stack@.len() ==> frame_ok(#[trigger] b.stack@[k], b.tags@, b.parents@, pos)
}

spec fn frame_view<'a>(f: Frame<'a>) -> FrameView {
    FrameView { handle: f.handle as int, name: f.name@, attrs: f.attributes@, children: f.children@, start: f.start as int }
}

/// The builder as a parse state at position `pos` with version `version`.
spec fn bview<'a>(b: Builder<'a>, pos: int, version: Option<HTMLVersion>) -> ParseState {
    ParseState {
        pos,
        nodes: b.tags@.map_values(|n: Node<'a>| node_view(n)),
        parents: b.parents@,
        roots: b.roots@,
        stack: b.stack@.map_values(|f: Frame<'a>| frame_view(f)),
        version,
    }
}

spec fn frame_in_input<'a>(f: Frame<'a>, input: Seq<u8>) -> bool {
    &&& f.start + 1 + f.name@.len() <= input.len()
    &&& input[f.start as int] == 60
    &&& 0 < f.name@.len()
    &&& input.subrange(f.start + 1, f.start + 1 + f.name@.len()) == f.name@
    &&& forall|k: int| 0 <= k < f.name@.len() ==> spec_is_ident(#[trigger] f.name@[k])
}

spec fn spans_ok<'a>(b: Builder<'a>, input: Seq<u8>) -> bool {
    &&& forall|j: int| 0 <= j < b.tags@.len() ==> node_in_input(#[trigger] b.tags@[j], input)
    &&& forall|k: int| 0 <= k < b.stack@.len() ==> frame_in_input(#[trigger] b.stack@[k], input)
}

/// The empty byte string occurs in any input.
proof fn lemma_empty_slice_of(input: Seq<u8>)
    ensures
        slice_of(input, Seq::<u8>::empty()),
{
    let e = Seq::<u8>::empty();
    assert(input.subrange(0int, 0int + e.len()) =~= e);
}

/// A run of the input occurs in it.
proof fn lemma_sub_slice_of(input: Seq<u8>, a: int, e: int)
    requires
        0 <= a <= e <= input.len(),
    ensures
        slice_of(input, input.subrange(a, e)),
{
    assert(input.subrange(a, a + input.subrange(a, e).len()) == input.subrange(a, e));
}

impl<'a> Builder<'a> {
    /// Appends a node without children under the innermost open element, or at the top level.
    fn add(&mut self, node: Node<'a>, pos: usize, input: Ghost<Seq<u8>>) -> (r: usize)
        requires
            builder_wf(*old(self), pos as int),
            spans_ok(*old(self), input@),
            node_in_input(node, input@),
            old(self).tags@.len() < pos <= MAX_INPUT,
            tag_kids(node).len() == 0,
        ensures
            builder_wf(*final(self), pos as int),
            spans_ok(*final(self), input@),
            bview(*final(self), 0, None) == st_add(bview(*old(self), 0, None), node_view(node)),
            r == old(self).tags@.len(),
            final(self).tags@ == old(self).tags@.push(node),
            final(self).stack@.len() == old(self).stack@.len(),
    {
        let h = self.tags.len();
        let ghost old_tags = self.tags@;
        if self.stack.len() == 0 {
            self.tags.push(node);
            self.parents.push(None);
            self.roots.push(NodeHandle(h as u32));
            assert(forall|j: int| 0 <= j < h ==> #[trigger] tag_kids(self.tags@[j]) == tag_kids(old_tags[j]));
            assert forall|j: int, k: int| 0 <= j < h && 0 <= k < tag_kids(self.tags@[j]).len() implies kid_ok(self.tags@, self.parents@, j, #[trigger] tag_kids(self.tags@[j])[k]) by {
                assert(kid_ok(old(self).tags@, old(self).parents@, j, tag_kids(old_tags[j])[k]));
            }
        } else {
            let mut f = self.stack.pop().unwrap();
            let p = f.handle;
            self.tags.push(node);
            self.parents.push(Some(p as u32));
            f.children.push(NodeHandle(h as u32));
            self.stack.push(f);
            assert forall|j: int, k: int| 0 <= j < h && 0 <= k < tag_kids(self.tags@[j]).len() implies kid_ok(self.tags@, self.parents@, j, #[trigger] tag_kids(self.tags@[j])[k]) by {
                assert(self.tags@[j] == old_tags[j]);
                assert(kid_ok(old(self).tags@, old(self).parents@, j, tag_kids(old_tags[j])[k]));
            }
            assert forall|k: int| 0 <= k < self.stack@.len() implies frame_ok(#[trigger] self.stack@[k], self.tags@, self.parents@, pos as int) by {
                if k < self.stack@.len() - 1 {
                    assert(self.stack@[k] == old(self).stack@[k]);
                    assert(frame_ok(old(self).stack@[k], old(self).tags@, old(self).parents@, pos as int));
                    assert forall|m: int| 0 <= m < self.stack@[k].children@.len() implies kid_ok(self.tags@, self.parents@, self.stack@[k].handle as int, #[trigger] self.stack@[k].children@[m]) by {
                        assert(kid_ok(old(self).tags@, old(self).parents@, self.stack@[k].handle as int, self.stack@[k].children@[m]));
                    }
                } else {
                    let of = old(self).stack@[k];
                    assert(frame_ok(of, old(self).tags@, old(self).parents@, pos as int));
                    assert forall|m: int| 0 <= m < self.stack@[k].children@.len() implies kid_ok(self.tags@, self.parents@, self.stack@[k].handle as int, #[trigger] self.stack@[k].children@[m]) by {
                        if m < of.children@.len() {
                            assert(self.stack@[k].children@[m] == of.children@[m]);
                            assert(kid_ok(old(self).tags@, old(self).parents@, of.handle as int, of.children@[m]));
                        }
                    }
                }
            }
        }
        proof {
            let o = bview(*old(self), 0, None);
            let e = st_add(o, node_view(node));
            let n = bview(*self, 0, None);
            assert(n.nodes =~= e.nodes);
            assert(n.parents =~= e.parents);
            assert(n.roots =~= e.roots);
            assert(n.stack =~= e.stack);
        }
        h
    }

    /// Closes the innermost open element; its source span ends at `end`.
    fn close(&mut self, input: &'a [u8], end: usize, pos: usize)
        requires
            builder_wf(*old(self), pos as int),
            spans_ok(*old(self), input@),
            old(self).stack@.len() > 0,
            pos <= end <= input@.len(),
        ensures
            builder_wf(*final(self), pos as int),
            spans_ok(*final(self), input@),
            bview(*final(self), 0, None) == st_close(bview(*old(self), 0, None), input@, end as int),
            final(self).tags@.len() == old(self).tags@.len(),
            final(self).stack@.len() == old(self).stack@.len() - 1,
    {
        let f = self.stack.pop().unwrap();
        let ghost f_ghost = f;
        let ghost old_tags = self.tags@;
        let ghost fc = f.children@;
        let fh = f.handle;
        assert(frame_ok(f, old_tags, self.parents@, pos as int));
        let raw = vstd::slice::slice_subrange(input, f.start, end);
        proof {
            assert(frame_in_input(f, input@));
            assert(raw@.subrange(1, 1 + f.name@.len() as int) =~= f.name@);
        }
        let tag = HTMLTag {
            _name: Bytes::from_slice(f.name),
            _attributes: f.attributes,
            _children: f.children,
            _raw: Bytes::from_slice(raw),
            _start: f.start,
        };
        self.tags.set(fh, Node::Tag(tag));
        assert(tag_kids(self.tags@[fh as int]) == fc);
        assert forall|j: int, k: int| 0 <= j < self.tags@.len() && 0 <= k < tag_kids(self.tags@[j]).len() implies kid_ok(self.tags@, self.parents@, j, #[trigger] tag_kids(self.tags@[j])[k]) by {
            if j == fh {
                assert(kid_ok(old_tags, self.parents@, j, fc[k]));
            } else {
                assert(self.tags@[j] == old_tags[j]);
                assert(kid_ok(old_tags, self.parents@, j, tag_kids(old_tags[j])[k]));
            }
        }
        assert forall|k: int| 0 <= k < self.stack@.len() implies frame_ok(#[trigger] self.stack@[k], self.tags@, self.parents@, pos as int) by {
            assert(self.stack@[k] == old(self).stack@[k]);
            assert(frame_ok(old(self).stack@[k], old_tags, self.parents@, pos as int));
            assert forall|m: int| 0 <= m < self.stack@[k].children@.len() implies kid_ok(self.tags@, self.parents@, self.stack@[k].handle as int, #[trigger] self.stack@[k].children@[m]) by {
                assert(kid_ok(old_tags, self.parents@, self.stack@[k].handle as int, self.stack@[k].children@[m]));
            }
        }
        proof {
            let o = bview(*old(self), 0, None);
            let e = st_close(o, input@, end as int);
            let n = bview(*self, 0, None);
            assert(o.stack.last() == frame_view(f_ghost));
            assert(n.nodes =~= e.nodes);
            assert(n.stack =~= e.stack);
        }
    }
}


/// The end of the run of identifier bytes from `j`.
pub open spec fn ident_from(d: Seq<u8>, j: int) -> int
    decreases d.len() - j,
{
    if 0 <= j < d.len() && spec_is_ident(d[j]) {
        ident_from(d, j + 1)
    } else {
        j
    }
}

/// The end of the run of whitespace from `j`.
pub open spec fn space_from(d: Seq<u8>, j: int) -> int
    decreases d.len() - j,
{
    if 0 <= j < d.len() && spec_is_space(d[j]) {
        space_from(d, j + 1)
    } else {
        j
    }
}

/// The first position from `j` holding `b`, or the end.
pub open spec fn byte_from(d: Seq<u8>, j: int, b: u8) -> int
    decreases d.len() - j,
{
    if 0 <= j < d.len() && d[j] != b {
        byte_from(d, j + 1, b)
    } else {
        j
    }
}

/// The end of an unquoted attribute value from `j`: the first whitespace or `>`, or the end.
pub open spec fn unquoted_from(d: Seq<u8>, j: int) -> int
    decreases d.len() - j,
{
    if 0 <= j < d.len() && !spec_is_space(d[j]) && d[j] != 62 {
        unquoted_from(d, j + 1)
    } else {
        j
    }
}

/// The position just past the first `-->` from `j`, or the end.
pub open spec fn comment_from(d: Seq<u8>, j: int) -> int
    decreases d.len() - j,
{
    if 0 <= j && j + 2 < d.len() {
        if d[j] == 45 && d[j + 1] == 45 && d[j + 2] == 62 {
            j + 3
        } else {
            comment_from(d, j + 1)
        }
    } else {
        d.len() as int
    }
}

/// `</name`, in any case and not followed by an identifier byte, starts at `k`.
pub open spec fn closer_at(d: Seq<u8>, k: int, name: Seq<u8>) -> bool {
    let e = k + 2 + name.len();
    &&& 0 <= k && e <= d.len()
    &&& d[k] == 60 && d[k + 1] == 47
    &&& eq_ignore_case(d.subrange(k + 2, e), name)
    &&& (e == d.len() || !spec_is_ident(d[e]))
}

/// The first position from `j` where a closing tag for `name` starts.
pub open spec fn closer_from(d: Seq<u8>, j: int, name: Seq<u8>) -> Option<int>
    decreases d.len() - j,
{
    if 0 <= j < d.len() {
        if closer_at(d, j, name) {
            Some(j)
        } else {
            closer_from(d, j + 1, name)
        }
    } else {
        None
    }
}

/// A `<!DOCTYPE` declaration, in any case and followed by whitespace, `>` or the end, starts
/// at `i`.
pub open spec fn doctype_start(d: Seq<u8>, i: int) -> bool {
    &&& 0 <= i && i + 9 <= d.len()
    &&& eq_ignore_case(d.subrange(i, i + 9), seq![60u8, 33u8, 100u8, 111u8, 99u8, 116u8, 121u8, 112u8, 101u8])
    &&& (i + 9 == d.len() || spec_is_space(d[i + 9]) || d[i + 9] == 62)
}

/// The attributes of an opening tag read from `k` on and added to `acc`, whether the tag closed
/// itself with `/>`, and the position after the tag (or the end, where the input stops inside
/// it). Whitespace is skipped; a byte that starts no attribute name is skipped; a name
/// followed by `=` takes a value up to the matching quote, or, unquoted, up to whitespace or
/// `>`; a name without `=` has no value.
pub open spec fn attrs_from(d: Seq<u8>, k: int, acc: Seq<AttrView>) -> (Seq<AttrView>, bool, int)
    decreases d.len() - k,
{
    let k1 = space_from(d, k);
    if !(0 <= k <= k1 < d.len()) {
        (acc, false, k1)
    } else if d[k1] == 62 {
        (acc, false, k1 + 1)
    } else if d[k1] == 47 && k1 + 1 < d.len() && d[k1 + 1] == 62 {
        (acc, true, k1 + 2)
    } else {
        let ne = ident_from(d, k1);
        if ne <= k1 {
            attrs_from(d, k1 + 1, acc)
        } else if ne > d.len() {
            (acc, false, ne)
        } else {
            let name = d.subrange(k1, ne);
            if ne < d.len() && d[ne] == 61 {
                let k2 = ne + 1;
                if k2 < d.len() && (d[k2] == 34 || d[k2] == 39) {
                    let vend = byte_from(d, k2 + 1, d[k2]);
                    let next = if vend < d.len() { vend + 1 } else { vend };
                    if k < next <= d.len() && k2 + 1 <= vend {
                        attrs_from(d, next, attr_insert(acc, name, Some(d.subrange(k2 + 1, vend))))
                    } else {
                        (acc, false, next)
                    }
                } else {
                    let vend = unquoted_from(d, k2);
                    if k < vend <= d.len() && k2 <= vend {
                        attrs_from(d, vend, attr_insert(acc, name, Some(d.subrange(k2, vend))))
                    } else {
                        (acc, false, vend)
                    }
                }
            } else {
                attrs_from(d, ne, attr_insert(acc, name, None))
            }
        }
    }
}

/// End of the run of identifier bytes that starts at `j`.
fn ident_end(input: &[u8], j: usize) -> (r: usize)
    requires
        j <= input@.len(),
    ensures
        j <= r <= input@.len(),
        forall|k: int| j <= k < r ==> spec_is_ident(#[trigger] input@[k]),
        r == input@.len() || !spec_is_ident(input@[r as int]),
        r == ident_from(input@, j as int),
{
    let mut k = j;
    while k < input.len() && is_ident(input[k])
        invariant
            j <= k <= input@.len(),
            forall|m: int| j <= m < k ==> spec_is_ident(#[trigger] input@[m]),
            ident_from(input@, k as int) == ident_from(input@, j as int),
        decreases input@.len() - k,
    {
        k += 1;
    }
    k
}

/// End of the run of whitespace that starts at `j`.
fn space_end(input: &[u8], j: usize) -> (r: usize)
    requires
        j <= input@.len(),
    ensures
        j <= r <= input@.len(),
        forall|k: int| j <= k < r ==> spec_is_space(#[trigger] input@[k]),
        r == input@.len() || !spec_is_space(input@[r as int]),
        r == space_from(input@, j as int),
{
    let mut k = j;
    while k < input.len() && is_space(input[k])
        invariant
            j <= k <= input@.len(),
            forall|m: int| j <= m < k ==> spec_is_space(#[trigger] input@[m]),
            space_from(input@, k as int) == space_from(input@, j as int),
        decreases input@.len() - k,
    {
        k += 1;
    }
    k
}

/// Position of the first byte `b` at or after `j`, or the end of the input.
fn find_from(input: &[u8], j: usize, b: u8) -> (r: usize)
    requires
        j <= input@.len(),
    ensures
        j <= r <= input@.len(),
        r < input@.len() ==> input@[r as int] == b,
        forall|k: int| j <= k < r ==> input@[k] != b,
        r == byte_from(input@, j as int, b),
{
    let rest = vstd::slice::slice_subrange(input, j, input.len());
    assert(rest@ =~= input@.subrange(j as int, input@.len() as int));
    let r = match find(rest, b) {
        Some(k) => {
            assert forall|m: int| j <= m < j + k implies input@[m] != b by {
                assert(input@[m] == rest@[m - j]);
            }
            j + k
        },
        None => {
            assert forall|m: int| j <= m < input@.len() implies input@[m] != b by {
                assert(input@[m] == rest@[m - j]);
            }
            input.len()
        },
    };
    proof {
        lemma_byte_from_first(input@, j as int, r as int, b);
    }
    r
}

proof fn lemma_byte_from_first(d: Seq<u8>, j: int, r: int, b: u8)
    requires
        0 <= j <= r <= d.len(),
        r < d.len() ==> d[r] == b,
        forall|k: int| j <= k < r ==> d[k] != b,
    ensures
        byte_from(d, j, b) == r,
    decreases r - j,
{
    if j < r {
        lemma_byte_from_first(d, j + 1, r, b);
    }
}

/// Position just past the first `-->` at or after `j`, or the end of the input.
fn comment_end(input: &[u8], j: usize) -> (r: usize)
    requires
        j <= input@.len(),
    ensures
        j <= r <= input@.len(),
        r == comment_from(input@, j as int),
{
    let mut k = j;
    while k < input.len() && input.len() - k > 2
        invariant
            j <= k <= input@.len(),
            comment_from(input@, k as int) == comment_from(input@, j as int),
        decreases input@.len() - k,
    {
        if input[k] == DASH && input[k + 1] == DASH && input[k + 2] == GT {
            return k + 3;
        }
        k += 1;
    }
    input.len()
}

/// Whether `s` starts with `p`, ignoring ASCII case.
fn starts_with_ignore_case(s: &[u8], p: &[u8]) -> (r: bool)
    ensures
        r == starts_ignore_case(s@, p@),
{
    if p.len() > s.len() {
        return false;
    }
    bytes_eq_ignore_case(vstd::slice::slice_subrange(s, 0, p.len()), p)
}

/// `s` starts with `p`, ignoring ASCII case.
pub open spec fn starts_ignore_case(s: Seq<u8>, p: Seq<u8>) -> bool {
    p.len() <= s.len() && eq_ignore_case(s.subrange(0, p.len() as int), p)
}

/// The version a document type declaration names, from the text after `<!DOCTYPE` and its
/// whitespace: `html` exactly, or the public identifiers of HTML 4.01 and XHTML, in any case.
pub open spec fn spec_doctype(c: Seq<u8>) -> Option<HTMLVersion> {
    if eq_ignore_case(c, seq![104u8, 116u8, 109u8, 108u8]) {  // "html"
        Some(HTMLVersion::HTML5)
    } else if starts_ignore_case(c, seq![104u8, 116u8, 109u8, 108u8, 32u8, 112u8, 117u8, 98u8, 108u8, 105u8, 99u8, 32u8, 34u8, 45u8, 47u8, 47u8, 119u8, 51u8, 99u8, 47u8, 47u8, 100u8, 116u8, 100u8, 32u8, 104u8, 116u8, 109u8, 108u8, 32u8, 52u8, 46u8, 48u8, 49u8, 47u8, 47u8, 101u8, 110u8, 34u8]) {  // "html public "-//w3c//dtd html 4.01//en""
        Some(HTMLVersion::StrictHTML401)
    } else if starts_ignore_case(c, seq![104u8, 116u8, 109u8, 108u8, 32u8, 112u8, 117u8, 98u8, 108u8, 105u8, 99u8, 32u8, 34u8, 45u8, 47u8, 47u8, 119u8, 51u8, 99u8, 47u8, 47u8, 100u8, 116u8, 100u8, 32u8, 104u8, 116u8, 109u8, 108u8, 32u8, 52u8, 46u8, 48u8, 49u8, 32u8, 116u8, 114u8, 97u8, 110u8, 115u8, 105u8, 116u8, 105u8, 111u8, 110u8, 97u8, 108u8, 47u8, 47u8, 101u8, 110u8, 34u8]) {  // "html public "-//w3c//dtd html 4.01 transitional//en""
        Some(HTMLVersion::TransitionalHTML401)
    } else if starts_ignore_case(c, seq![104u8, 116u8, 109u8, 108u8, 32u8, 112u8, 117u8, 98u8, 108u8, 105u8, 99u8, 32u8, 34u8, 45u8, 47u8, 47u8, 119u8, 51u8, 99u8, 47u8, 47u8, 100u8, 116u8, 100u8, 32u8, 104u8, 116u8, 109u8, 108u8, 32u8, 52u8, 46u8, 48u8, 49u8, 32u8, 102u8, 114u8, 97u8, 109u8, 101u8, 115u8, 101u8, 116u8, 47u8, 47u8, 101u8, 110u8, 34u8]) {  // "html public "-//w3c//dtd html 4.01 frameset//en""
        Some(HTMLVersion::FramesetHTML401)
    } else if starts_ignore_case(c, seq![104u8, 116u8, 109u8, 108u8, 32u8, 112u8, 117u8, 98u8, 108u8, 105u8, 99u8, 32u8, 34u8, 45u8, 47u8, 47u8, 119u8, 51u8, 99u8, 47u8, 47u8, 100u8, 116u8, 100u8, 32u8, 120u8, 104u8, 116u8, 109u8, 108u8]) {  // "html public \"-//w3c//dtd xhtml"
        Some(HTMLVersion::XHTML)
    } else {
        None
    }
}

/// The version a document type declaration names, from the text after `<!DOCTYPE` and its
/// whitespace, up to the closing `>`.
pub fn classify_doctype(content: &[u8]) -> (r: Option<HTMLVersion>)
    ensures
        r == spec_doctype(content@),
{
    if bytes_eq_ignore_case(content, &[104u8, 116u8, 109u8, 108u8]) {  // "html"
        Some(HTMLVersion::HTML5)
    } else if starts_with_ignore_case(content, &[104u8, 116u8, 109u8, 108u8, 32u8, 112u8, 117u8, 98u8, 108u8, 105u8, 99u8, 32u8, 34u8, 45u8, 47u8, 47u8, 119u8, 51u8, 99u8, 47u8, 47u8, 100u8, 116u8, 100u8, 32u8, 104u8, 116u8, 109u8, 108u8, 32u8, 52u8, 46u8, 48u8, 49u8, 47u8, 47u8, 101u8, 110u8, 34u8]) {  // "html public "-//w3c//dtd html 4.01//en""
        Some(HTMLVersion::StrictHTML401)
    } else if starts_with_ignore_case(content, &[104u8, 116u8, 109u8, 108u8, 32u8, 112u8, 117u8, 98u8, 108u8, 105u8, 99u8, 32u8, 34u8, 45u8, 47u8, 47u8, 119u8, 51u8, 99u8, 47u8, 47u8, 100u8, 116u8, 100u8, 32u8, 104u8, 116u8, 109u8, 108u8, 32u8, 52u8, 46u8, 48u8, 49u8, 32u8, 116u8, 114u8, 97u8, 110u8, 115u8, 105u8, 116u8, 105u8, 111u8, 110u8, 97u8, 108u8, 47u8, 47u8, 101u8, 110u8, 34u8]) {  // "html public "-//w3c//dtd html 4.01 transitional//en""
        Some(HTMLVersion::TransitionalHTML401)
    } else if starts_with_ignore_case(content, &[104u8, 116u8, 109u8, 108u8, 32u8, 112u8, 117u8, 98u8, 108u8, 105u8, 99u8, 32u8, 34u8, 45u8, 47u8, 47u8, 119u8, 51u8, 99u8, 47u8, 47u8, 100u8, 116u8, 100u8, 32u8, 104u8, 116u8, 109u8, 108u8, 32u8, 52u8, 46u8, 48u8, 49u8, 32u8, 102u8, 114u8, 97u8, 109u8, 101u8, 115u8, 101u8, 116u8, 47u8, 47u8, 101u8, 110u8, 34u8]) {  // "html public "-//w3c//dtd html 4.01 frameset//en""
        Some(HTMLVersion::FramesetHTML401)
    } else if starts_with_ignore_case(content, &[104u8, 116u8, 109u8, 108u8, 32u8, 112u8, 117u8, 98u8, 108u8, 105u8, 99u8, 32u8, 34u8, 45u8, 47u8, 47u8, 119u8, 51u8, 99u8, 47u8, 47u8, 100u8, 116u8, 100u8, 32u8, 120u8, 104u8, 116u8, 109u8, 108u8]) {
        Some(HTMLVersion::XHTML)
    } else {
        None
    }
}

/// Whether a `<!DOCTYPE` declaration, in any case and followed by whitespace, `>` or the end,
/// starts at `i`.
fn doctype_at(input: &[u8], i: usize) -> (r: bool)
    requires
        i <= input@.len(),
    ensures
        r == doctype_start(input@, i as int),
{
    if input.len() - i < 9 {
        return false;
    }
    let word = vstd::slice::slice_subrange(input, i, i + 9);
    let key: [u8; 9] = [60u8, 33u8, 100u8, 111u8, 99u8, 116u8, 121u8, 112u8, 101u8];  // "<!doctype"
    assert(key@ == seq![60u8, 33u8, 100u8, 111u8, 99u8, 116u8, 121u8, 112u8, 101u8]);
    if !bytes_eq_ignore_case(word, &key) {
        return false;
    }
    i + 9 == input.len() || is_space(input[i + 9]) || input[i + 9] == GT
}

/// Reads the attributes of an opening tag from `j` up to and including its `>`, or `/>`, or
/// the end of the input. Returns the attributes, whether the tag closed itself, and the
/// position after the tag.
fn parse_attributes<'a>(input: &'a [u8], j: usize) -> (r: (Attributes<'a>, bool, usize))
    requires
        j <= input@.len(),
    ensures
        j <= r.2 <= input@.len(),
        (r.0@, r.1, r.2 as int) == attrs_from(input@, j as int, Seq::empty()),
{
    let mut attrs = Attributes::new();
    let mut k = j;
    loop
        invariant
            j <= k <= input@.len(),
            attrs_from(input@, k as int, attrs@) == attrs_from(input@, j as int, Seq::empty()),
        decreases input@.len() - k,
    {
        let ghost k0 = k as int;
        let ghost acc = attrs@;
        k = space_end(input, k);
        if k >= input.len() {
            return (attrs, false, k);
        }
        if input[k] == GT {
            return (attrs, false, k + 1);
        }
        if input[k] == SLASH && k + 1 < input.len() && input[k + 1] == GT {
            return (attrs, true, k + 2);
        }
        let name_end = ident_end(input, k);
        if name_end == k {
            k += 1;
        } else {
            let name_bytes = vstd::slice::slice_subrange(input, k, name_end);
            let name = Bytes::from_slice(name_bytes);
            k = name_end;
            if k < input.len() && input[k] == EQ {
                k += 1;
                if k < input.len() && (input[k] == DQUOTE || input[k] == SQUOTE) {
                    let quote = input[k];
                    let vstart = k + 1;
                    let vend = find_from(input, vstart, quote);
                    attrs.insert_bytes(
                        name,
                        Some(Bytes::from_slice(vstd::slice::slice_subrange(input, vstart, vend))),
                    );
                    k = if vend < input.len() {
                        vend + 1
                    } else {
                        vend
                    };
                } else {
                    let vstart = k;
                    let mut vend = k;
                    while vend < input.len() && !is_space(input[vend]) && input[vend] != GT
                        invariant
                            vstart <= vend <= input@.len(),
                            unquoted_from(input@, vend as int) == unquoted_from(input@, vstart as int),
                        decreases input@.len() - vend,
                    {
                        vend += 1;
                    }
                    attrs.insert_bytes(
                        name,
                        Some(Bytes::from_slice(vstd::slice::slice_subrange(input, vstart, vend))),
                    );
                    k = vend;
                }
            } else {
                attrs.insert_bytes(name, None);
            }
        }
        assert(attrs_from(input@, k0, acc) == attrs_from(input@, k as int, attrs@));
    }
}

/// Position of the first `</name`, in any case and not followed by an identifier byte, at or
/// after `j`.
fn find_closer(input: &[u8], j: usize, name: &[u8]) -> (r: Option<usize>)
    requires
        j <= input@.len(),
    ensures
        r matches Some(k) ==> j <= k && k + 2 + name@.len() <= input@.len(),
        match r {
            Some(k) => closer_from(input@, j as int, name@) == Some(k as int),
            None => closer_from(input@, j as int, name@) is None,
        },
{
    let mut k = j;
    while k < input.len()
        invariant
            j <= k <= input@.len(),
            closer_from(input@, k as int, name@) == closer_from(input@, j as int, name@),
        decreases input@.len() - k,
    {
        if input[k] == LT && k + 1 < input.len() && input[k + 1] == SLASH && name.len() <= input.len() - (k + 2) {
            let e = k + 2 + name.len();
            if bytes_eq_ignore_case(vstd::slice::slice_subrange(input, k + 2, e), name) && (e == input.len() || !is_ident(input[e])) {
                assert(closer_at(input@, k as int, name@));
                return Some(k);
            }
        }
        assert(!closer_at(input@, k as int, name@));
        k += 1;
    }
    None
}

/// A comment: `<!--` up to and including the next `-->`, or to the end.
fn step_comment<'a>(b: &mut Builder<'a>, input: &'a [u8], i: usize, v: Ghost<Option<HTMLVersion>>) -> (r: usize)
    requires
        i < input@.len() <= MAX_INPUT,
        builder_wf(*old(b), i as int),
        spans_ok(*old(b), input@),
        comment_at(input@, i as int),
    ensures
        builder_wf(*final(b), r as int),
        spans_ok(*final(b), input@),
        bview(*final(b), r as int, v@) == spec_step(input@, bview(*old(b), i as int, v@)),
        i < r <= input@.len() || (i == r && final(b).stack@.len() < old(b).stack@.len()),
{
    let end = comment_end(input, i + 4);
    let text = vstd::slice::slice_subrange(input, i, end);
    proof {
        lemma_sub_slice_of(input@, i as int, end as int);
        assert(text@.subrange(0, 4) =~= seq![60u8, 33u8, 45u8, 45u8]);  // "<!--"
    }
    b.add(Node::Comment(Bytes::from_slice(text)), end, Ghost(input@));
    end
}

/// A closing tag.
fn step_closing<'a>(b: &mut Builder<'a>, input: &'a [u8], i: usize, v: Ghost<Option<HTMLVersion>>) -> (r: usize)
    requires
        i < input@.len() <= MAX_INPUT,
        builder_wf(*old(b), i as int),
        spans_ok(*old(b), input@),
        !comment_at(input@, i as int),
        !declaration_at(input@, i as int),
        closing_at(input@, i as int),
    ensures
        builder_wf(*final(b), r as int),
        spans_ok(*final(b), input@),
        bview(*final(b), r as int, v@) == spec_step(input@, bview(*old(b), i as int, v@)),
        i < r <= input@.len() || (i == r && final(b).stack@.len() < old(b).stack@.len()),
{
    let len = input.len();
    let name_end = ident_end(input, i + 2);
    let name = vstd::slice::slice_subrange(input, i + 2, name_end);
    let gt = find_from(input, name_end, GT);
    let end = if gt < len {
        gt + 1
    } else {
        gt
    };
    if name.len() == 0 || is_void_name(name) || b.stack.len() == 0 {
        end
    } else {
        let top = b.stack.len() - 1;
        proof {
            assert(bview(*b, 0, None).stack.last() == frame_view(b.stack@[top as int]));
        }
        if bytes_eq_ignore_case(b.stack[top].name, name) {
            b.close(input, end, end);
            end
        } else {
            b.close(input, i, i);
            i
        }
    }
}

/// Text up to the next `<` after its first byte.
fn step_text<'a>(b: &mut Builder<'a>, input: &'a [u8], i: usize, v: Ghost<Option<HTMLVersion>>) -> (r: usize)
    requires
        i < input@.len() <= MAX_INPUT,
        builder_wf(*old(b), i as int),
        spans_ok(*old(b), input@),
        !comment_at(input@, i as int),
        !declaration_at(input@, i as int),
        !closing_at(input@, i as int),
        !opening_at(input@, i as int),
    ensures
        builder_wf(*final(b), r as int),
        spans_ok(*final(b), input@),
        bview(*final(b), r as int, v@) == spec_step(input@, bview(*old(b), i as int, v@)),
        i < r <= input@.len() || (i == r && final(b).stack@.len() < old(b).stack@.len()),
{
    let end = find_from(input, i + 1, LT);
    let text = vstd::slice::slice_subrange(input, i, end);
    proof {
        lemma_sub_slice_of(input@, i as int, end as int);
    }
    b.add(Node::Raw(Bytes::from_slice(text)), end, Ghost(input@));
    end
}

/// An opening tag, with a raw-text element's body and closing tag.
#[verifier::rlimit(50)]
fn step_opening<'a>(b: &mut Builder<'a>, input: &'a [u8], i: usize, v: Ghost<Option<HTMLVersion>>) -> (r: usize)
    requires
        i < input@.len() <= MAX_INPUT,
        builder_wf(*old(b), i as int),
        spans_ok(*old(b), input@),
        !comment_at(input@, i as int),
        !declaration_at(input@, i as int),
        !closing_at(input@, i as int),
        opening_at(input@, i as int),
    ensures
        builder_wf(*final(b), r as int),
        spans_ok(*final(b), input@),
        bview(*final(b), r as int, v@) == spec_step(input@, bview(*old(b), i as int, v@)),
        i < r <= input@.len() || (i == r && final(b).stack@.len() < old(b).stack@.len()),
{
    let len = input.len();
    let name_end = ident_end(input, i + 1);
    let name = vstd::slice::slice_subrange(input, i + 1, name_end);
    let (attrs, self_closing, end) = parse_attributes(input, name_end);
    if self_closing || is_void_name(name) {
        let raw = vstd::slice::slice_subrange(input, i, end);
        let tag = HTMLTag {
            _name: Bytes::from_slice(name),
            _attributes: attrs,
            _children: Vec::new(),
            _raw: Bytes::from_slice(raw),
            _start: i,
        };
        proof {
            assert(raw@.subrange(1, 1 + name@.len() as int) =~= name@);
            assert forall|k: int| 0 <= k < name@.len() implies spec_is_ident(#[trigger] name@[k]) by {
                assert(name@[k] == input@[i + 1 + k]);
            }
        }
        b.add(Node::Tag(tag), end, Ghost(input@));
        end
    } else {
        proof {
            lemma_empty_slice_of(input@);
            assert forall|k: int| 0 <= k < name@.len() implies spec_is_ident(#[trigger] name@[k]) by {
                assert(name@[k] == input@[i + 1 + k]);
            }
        }
        let h = b.add(Node::Raw(Bytes::new()), end, Ghost(input@));
        let ghost depth = b.stack@.len();
        let ghost s1 = bview(*b, i as int, v@);
        let f = Frame { handle: h, name, attributes: attrs, children: Vec::new(), start: i };
        let ghost fv = frame_view(f);
        b.stack.push(f);
        proof {
            assert(bview(*b, i as int, v@).stack =~= s1.stack.push(fv));
        }
        assert forall|k: int| 0 <= k < b.stack@.len() implies frame_ok(#[trigger] b.stack@[k], b.tags@, b.parents@, end as int) by {
            if k < depth {
                assert(frame_ok(b.stack@[k], b.tags@, b.parents@, end as int));
            }
        }
        if is_raw_text_name(name) {
            let close_at = find_closer(input, end, name);
            let body_end = match close_at {
                Some(k) => k,
                None => len,
            };
            if body_end > end {
                let body = vstd::slice::slice_subrange(input, end, body_end);
                proof {
                    lemma_sub_slice_of(input@, end as int, body_end as int);
                }
                b.add(Node::Raw(Bytes::from_slice(body)), body_end, Ghost(input@));
            }
            let tag_end = match close_at {
                Some(k) => {
                    let gt = find_from(input, k + 2 + name.len(), GT);
                    if gt < len {
                        gt + 1
                    } else {
                        gt
                    }
                },
                None => len,
            };
            b.close(input, tag_end, tag_end);
            tag_end
        } else {
            end
        }
    }
}

/// One step of the parse at `i`; see `spec_step`.
fn parse_step<'a>(b: &mut Builder<'a>, input: &'a [u8], i: usize, version: Option<HTMLVersion>) -> (r: (usize, Option<HTMLVersion>))
    requires
        i < input@.len() <= MAX_INPUT,
        builder_wf(*old(b), i as int),
        spans_ok(*old(b), input@),
    ensures
        builder_wf(*final(b), r.0 as int),
        spans_ok(*final(b), input@),
        bview(*final(b), r.0 as int, r.1) == spec_step(input@, bview(*old(b), i as int, version)),
        i < r.0 <= input@.len() || (i == r.0 && final(b).stack@.len() < old(b).stack@.len()),
{
    let len = input.len();
    let c = input[i];
    if c == LT && len - i > 3 && input[i + 1] == BANG && input[i + 2] == DASH && input[i + 3] == DASH {
        (step_comment(b, input, i, Ghost(version)), version)
    } else if c == LT && i + 1 < len && input[i + 1] == BANG && doctype_at(input, i) {
        let cstart = space_end(input, i + 9);
        let gt = find_from(input, cstart, GT);
        let nv = classify_doctype(vstd::slice::slice_subrange(input, cstart, gt));
        let ni = if gt < len {
            gt + 1
        } else {
            gt
        };
        (ni, nv)
    } else if c == LT && i + 1 < len && input[i + 1] == SLASH {
        (step_closing(b, input, i, Ghost(version)), version)
    } else if c == LT && i + 1 < len && is_ident(input[i + 1]) {
        (step_opening(b, input, i, Ghost(version)), version)
    } else {
        (step_text(b, input, i, Ghost(version)), version)
    }
}

/// A parsed document as its arena, its top-level nodes, and its declared version.
pub struct ParsedDocument<'a> {
    pub arena: Parser<'a>,
    pub roots: Vec<NodeHandle>,
    pub version: Option<HTMLVersion>,
}

/// Parses `input` into a tree. Any byte string gives a tree: unclosed elements are closed at
/// the end, stray closing tags are skipped, and an input that ends inside a tag ends it.
pub fn parse_document<'a>(input: &'a [u8]) -> (r: ParsedDocument<'a>)
    requires
        input@.len() <= MAX_INPUT,
    ensures
        arena_wf(r.arena.tags@, r.arena.parents@),
        roots_wf(r.arena.tags@, r.roots@),
        r.arena.tags@.len() <= input@.len(),
        forall|j: int| 0 <= j < r.arena.tags@.len() ==> node_in_input(#[trigger] r.arena.tags@[j], input@),
        r.arena.tags@.map_values(|n: Node<'a>| node_view(n)) == spec_parse(input@).nodes,
        r.arena.parents@ == spec_parse(input@).parents,
        r.roots@ == spec_parse(input@).roots,
        r.version == spec_parse(input@).version,
{
    let len = input.len();
    let mut b = Builder { tags: Vec::new(), parents: Vec::new(), roots: Vec::new(), stack: Vec::new() };
    let mut version: Option<HTMLVersion> = None;
    let mut i: usize = 0;
    proof {
        let st = bview(b, 0, None);
        assert(st.nodes =~= Seq::<NodeView>::empty());
        assert(st.stack =~= Seq::<FrameView>::empty());
        assert(st == ParseState { pos: 0, nodes: Seq::empty(), parents: Seq::empty(), roots: Seq::empty(), stack: Seq::empty(), version: None });
    }
    while i < len
        invariant
            len == input@.len() <= MAX_INPUT,
            i <= len,
            builder_wf(b, i as int),
            spans_ok(b, input@),
            spec_run(input@, bview(b, i as int, version)) == spec_parse(input@),
        decreases len - i, b.stack@.len(),
    {
        let (ni, nv) = parse_step(&mut b, input, i, version);
        i = ni;
        version = nv;

    }
    while b.stack.len() > 0
        invariant
            len == input@.len(),
            builder_wf(b, len as int),
            spans_ok(b, input@),
            spec_close_all(input@, bview(b, len as int, version)) == spec_parse(input@),
        decreases b.stack@.len(),
    {
        let ghost st0 = bview(b, len as int, version);
        b.close(input, len, len);
        assert(bview(b, len as int, version) == st_close(st0, input@, len as int));
    }
    assert(bview(b, len as int, version) == spec_parse(input@));
    ParsedDocument { arena: Parser { tags: b.tags, parents: b.parents }, roots: b.roots, version }
}

} // verus!
