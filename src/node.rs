use vstd::prelude::*;

use crate::attributes::{opt_view, AttrView, Attributes};
use crate::bytes::{lossy_utf8, utf8_lossy_string, Bytes};
use crate::parser::{is_void_name, spec_is_void_name, Parser};

verus! {

/// An index into the node arena of a parsed document.
#[derive(Clone, Copy, Debug, PartialEq, Eq, Structural)]
pub struct NodeHandle(pub u32);

/// A parsed element with its name, attributes, direct children and source span.
#[derive(Debug)]
pub struct HTMLTag<'a> {
    pub _name: Bytes<'a>,
    pub _attributes: Attributes<'a>,
    pub _children: Vec<NodeHandle>,
    pub _raw: Bytes<'a>,
    pub _start: usize,
}

/// A node of the document: an element, a run of text, or a comment with its delimiters.
#[derive(Debug)]
pub enum Node<'a> {
    Tag(HTMLTag<'a>),
    Raw(Bytes<'a>),
    Comment(Bytes<'a>),
}

/// Direct children of a tag, or nothing for text and comments.
pub open spec fn tag_kids<'a>(n: Node<'a>) -> Seq<NodeHandle> {
    match n {
        Node::Tag(t) => t._children@,
        _ => Seq::empty(),
    }
}

/// Handles of all descendants of node `h`, in document order (a pre-order walk of the child
/// lists). A child that does not come after its parent in the arena is not followed.
pub open spec fn desc<'a>(nodes: Seq<Node<'a>>, h: int) -> Seq<int>
    decreases nodes.len() - h, 1int, 0int,
{
    if 0 <= h < nodes.len() {
        kids_desc(nodes, h + 1, tag_kids(nodes[h]), tag_kids(nodes[h]).len() as int)
    } else {
        Seq::empty()
    }
}

/// The nodes reached through the first `n` handles of `kids`, each followed by its
/// descendants; only handles from `lo` up to the end of the arena are followed.
pub open spec fn kids_desc<'a>(nodes: Seq<Node<'a>>, lo: int, kids: Seq<NodeHandle>, n: int) -> Seq<int>
    decreases nodes.len() + 1 - lo, 0int, n,
{
    if n <= 0 || n > kids.len() || !(0 <= lo <= nodes.len()) {
        Seq::empty()
    } else {
        let c = kids[n - 1].0 as int;
        kids_desc(nodes, lo, kids, n - 1) + if lo <= c < nodes.len() {
            seq![c] + desc(nodes, c)
        } else {
            Seq::empty()
        }
    }
}

/// Every descendant of node `h` lies in the arena, after `h`.
pub proof fn lemma_desc_bounds<'a>(nodes: Seq<Node<'a>>, h: int)
    ensures
        forall|k: int| 0 <= k < desc(nodes, h).len() ==> h < #[trigger] desc(nodes, h)[k] < nodes.len(),
    decreases nodes.len() - h, 1int, 0int,
{
    if 0 <= h < nodes.len() {
        lemma_kids_bounds(nodes, h + 1, tag_kids(nodes[h]), tag_kids(nodes[h]).len() as int);
        assert(desc(nodes, h) == kids_desc(nodes, h + 1, tag_kids(nodes[h]), tag_kids(nodes[h]).len() as int));
    }
}

/// Every node reached through `kids` from `lo` lies in the arena, from `lo` on.
pub proof fn lemma_kids_bounds<'a>(nodes: Seq<Node<'a>>, lo: int, kids: Seq<NodeHandle>, n: int)
    ensures
        forall|k: int| 0 <= k < kids_desc(nodes, lo, kids, n).len() ==> lo <= #[trigger] kids_desc(nodes, lo, kids, n)[k] < nodes.len(),
    decreases nodes.len() + 1 - lo, 0int, n,
{
    if n <= 0 || n > kids.len() || !(0 <= lo <= nodes.len()) {
    } else {
        let c = kids[n - 1].0 as int;
        lemma_kids_bounds(nodes, lo, kids, n - 1);
        if lo <= c < nodes.len() {
            lemma_desc_bounds(nodes, c);
            let a = kids_desc(nodes, lo, kids, n - 1);
            let b = seq![c] + desc(nodes, c);
            assert(kids_desc(nodes, lo, kids, n) == a + b);
            assert forall|k: int| 0 <= k < (a + b).len() implies lo <= #[trigger] (a + b)[k] < nodes.len() by {
                if k < a.len() {
                    assert((a + b)[k] == a[k]);
                } else if k == a.len() {
                    assert((a + b)[k] == c);
                } else {
                    assert((a + b)[k] == desc(nodes, c)[k - a.len() - 1]);
                }
            }
        } else {
            assert(kids_desc(nodes, lo, kids, n) =~= kids_desc(nodes, lo, kids, n - 1));
        }
    }
}

/// The bytes of a text node; nothing for other nodes.
pub open spec fn raw_bytes<'a>(n: Node<'a>) -> Seq<u8> {
    match n {
        Node::Raw(b) => b@,
        _ => Seq::empty(),
    }
}

/// The text of the nodes at `idx`, concatenated in that order.
pub open spec fn concat_raw<'a>(nodes: Seq<Node<'a>>, idx: Seq<int>) -> Seq<u8>
    decreases idx.len(),
{
    if idx.len() == 0 {
        Seq::empty()
    } else {
        concat_raw(nodes, idx.drop_last()) + if 0 <= idx.last() < nodes.len() {
            raw_bytes(nodes[idx.last()])
        } else {
            Seq::empty()
        }
    }
}

/// The text of node `h`: a text node's own bytes, else the text of all its descendants.
pub open spec fn text_of<'a>(nodes: Seq<Node<'a>>, h: int) -> Seq<u8> {
    if 0 <= h < nodes.len() && nodes[h] is Raw {
        raw_bytes(nodes[h])
    } else {
        concat_raw(nodes, desc(nodes, h))
    }
}

/// The attributes rendered as ` name="value"` or ` name`, the first `n` of them.
pub open spec fn attrs_html(s: Seq<AttrView>, n: int) -> Seq<u8>
    decreases n,
{
    if n <= 0 || n > s.len() {
        Seq::empty()
    } else {
        attrs_html(s, n - 1) + seq![32u8] + s[n - 1].0 + match s[n - 1].1 {
            Some(v) => seq![61u8, 34u8] + v + seq![34u8],  // ="value"
            None => Seq::empty(),
        }
    }
}

/// The opening tag: `<`, the name, the attributes, `>`.
pub open spec fn open_tag_html<'a>(t: HTMLTag<'a>) -> Seq<u8> {
    seq![60u8] + t._name@ + attrs_html(t._attributes@, t._attributes@.len() as int) + seq![62u8]
}

/// The markup of node `h`, rebuilt from the tree. Void elements get no closing tag.
pub open spec fn html_of<'a>(nodes: Seq<Node<'a>>, h: int) -> Seq<u8>
    decreases nodes.len() - h, 1int, 0int,
{
    if 0 <= h < nodes.len() {
        match nodes[h] {
            Node::Tag(t) => open_tag_html(t) + if spec_is_void_name(t._name@) {
                Seq::empty()
            } else {
                kids_html(nodes, h + 1, t._children@, t._children@.len() as int) + seq![60u8, 47u8]  // "</"
                    + t._name@ + seq![62u8]
            },
            Node::Raw(b) => b@,
            Node::Comment(b) => b@,
        }
    } else {
        Seq::empty()
    }
}

/// The markup of the nodes named by the first `n` handles of `kids`; only handles from `lo`
/// up to the end of the arena are followed.
pub open spec fn kids_html<'a>(nodes: Seq<Node<'a>>, lo: int, kids: Seq<NodeHandle>, n: int) -> Seq<u8>
    decreases nodes.len() + 1 - lo, 0int, n,
{
    if n <= 0 || n > kids.len() || !(0 <= lo <= nodes.len()) {
        Seq::empty()
    } else {
        let c = kids[n - 1].0 as int;
        kids_html(nodes, lo, kids, n - 1) + if lo <= c < nodes.len() {
            html_of(nodes, c)
        } else {
            Seq::empty()
        }
    }
}

/// Appends `s` to `out`.
pub fn extend_bytes(out: &mut Vec<u8>, s: &[u8])
    ensures
        final(out)@ == old(out)@ + s@,
{
    let mut i: usize = 0;
    while i < s.len()
        invariant
            i <= s@.len(),
            out@ == old(out)@ + s@.subrange(0, i as int),
        decreases s@.len() - i,
    {
        out.push(s[i]);
        i += 1;
        assert(s@.subrange(0, i as int) =~= s@.subrange(0, i - 1) + seq![s@[i - 1]]);
    }
    assert(s@.subrange(0, s@.len() as int) =~= s@);
}

impl NodeHandle {
    /// A handle for arena index `i`.
    pub fn new(i: u32) -> (r: NodeHandle)
        ensures
            r.0 == i,
    {
        NodeHandle(i)
    }

    /// The arena index.
    pub fn get_inner(&self) -> (r: u32)
        ensures
            r == self.0,
    {
        self.0
    }

    /// The node this handle names, if it is in the arena.
    pub fn get<'p, 'a>(&self, parser: &'p Parser<'a>) -> (r: Option<&'p Node<'a>>)
        ensures
            (self.0 < parser.tags@.len()) == r is Some,
            r matches Some(n) ==> *n == parser.tags@[self.0 as int],
    {
        let i = self.0 as usize;
        if i < parser.tags.len() {
            Some(&parser.tags[i])
        } else {
            None
        }
    }

    /// Mutable access to the node this handle names, if it is in the arena.
    pub fn get_mut<'p, 'a>(&self, parser: &'p mut Parser<'a>) -> (r: Option<&'p mut Node<'a>>)
        ensures
            (self.0 < old(parser).tags@.len()) == r is Some,
            r matches Some(n) ==> *n == old(parser).tags@[self.0 as int] && final(parser).tags@
                == old(parser).tags@.update(self.0 as int, *final(n)) && final(parser).parents
                == old(parser).parents,
            r is None ==> *final(parser) == *old(parser),
    {
        let i = self.0 as usize;
        if i < parser.tags.len() {
            Some(&mut parser.tags[i])
        } else {
            None
        }
    }
}


impl<'a> Parser<'a> {
    /// Appends to `out` the nodes named by `kids` that lie from `lo` to the end of the arena,
    /// each followed by its descendants.
    pub fn collect_kids(&self, lo: usize, kids: &Vec<NodeHandle>, out: &mut Vec<usize>)
        requires
            lo <= self.tags@.len(),
        ensures
            final(out)@.map_values(|x: usize| x as int) == old(out)@.map_values(|x: usize| x as int)
                + kids_desc(self.tags@, lo as int, kids@, kids@.len() as int),
        decreases self.tags@.len() + 1 - lo, 0int,
    {
        let ghost nodes = self.tags@;
        let mut i: usize = 0;
        while i < kids.len()
            invariant
                lo <= nodes.len(),
                nodes == self.tags@,
                i <= kids@.len(),
                out@.map_values(|x: usize| x as int) == old(out)@.map_values(|x: usize| x as int)
                    + kids_desc(nodes, lo as int, kids@, i as int),
            decreases kids@.len() - i,
        {
            let c = kids[i].0 as usize;
            let ghost before = out@;
            if lo <= c && c < self.tags.len() {
                out.push(c);
                assert(out@.map_values(|x: usize| x as int) =~= before.map_values(|x: usize| x as int) + seq![c as int]);
                self.collect_descendants(c, out);
            }
            i += 1;
            assert(out@.map_values(|x: usize| x as int) =~= old(out)@.map_values(|x: usize| x as int)
                    + kids_desc(nodes, lo as int, kids@, i as int));
        }
    }

    /// Appends the descendants of node `h` to `out`, in document order.
    pub fn collect_descendants(&self, h: usize, out: &mut Vec<usize>)
        ensures
            final(out)@.map_values(|x: usize| x as int) == old(out)@.map_values(|x: usize| x as int)
                + desc(self.tags@, h as int),
        decreases self.tags@.len() - h, 1int,
    {
        if h >= self.tags.len() {
            assert(out@.map_values(|x: usize| x as int) =~= old(out)@.map_values(|x: usize| x as int)
                + desc(self.tags@, h as int));
            return;
        }
        match &self.tags[h] {
            Node::Tag(t) => {
                self.collect_kids(h + 1, &t._children, out);
            },
            _ => {
                assert(out@.map_values(|x: usize| x as int) =~= old(out)@.map_values(|x: usize| x as int)
                    + desc(self.tags@, h as int));
            },
        }
    }

    /// The handles of all descendants of node `h`, in document order.
    pub fn descendants(&self, h: usize) -> (r: Vec<usize>)
        ensures
            r@.map_values(|x: usize| x as int) == desc(self.tags@, h as int),
    {
        let mut out: Vec<usize> = Vec::new();
        assert(out@.map_values(|x: usize| x as int) =~= Seq::<int>::empty());
        self.collect_descendants(h, &mut out);
        assert(Seq::<int>::empty() + desc(self.tags@, h as int) =~= desc(self.tags@, h as int));
        out
    }

    /// The text of node `h` as bytes: its own bytes for a text node, else the text of all its
    /// descendants in document order.
    pub fn text_bytes(&self, h: usize) -> (r: Vec<u8>)
        ensures
            r@ == text_of(self.tags@, h as int),
    {
        let mut out: Vec<u8> = Vec::new();
        if h < self.tags.len() {
            if let Node::Raw(b) = &self.tags[h] {
                extend_bytes(&mut out, b.as_bytes());
                assert(out@ =~= text_of(self.tags@, h as int));
                return out;
            }
        }
        let d = self.descendants(h);
        let ghost ds = d@.map_values(|x: usize| x as int);
        let mut i: usize = 0;
        while i < d.len()
            invariant
                i <= d@.len(),
                ds == d@.map_values(|x: usize| x as int),
                ds == desc(self.tags@, h as int),
                out@ == concat_raw(self.tags@, ds.subrange(0, i as int)),
            decreases d@.len() - i,
        {
            let k = d[i];
            assert(ds.subrange(0, i + 1).drop_last() =~= ds.subrange(0, i as int));
            if k < self.tags.len() {
                if let Node::Raw(b) = &self.tags[k] {
                    extend_bytes(&mut out, b.as_bytes());
                }
            }
            i += 1;
            assert(out@ =~= concat_raw(self.tags@, ds.subrange(0, i as int)));
        }
        assert(ds.subrange(0, ds.len() as int) =~= ds);
        out
    }

    /// Appends the markup of the nodes named by `kids` that lie from `lo` to the end of the
    /// arena.
    pub fn write_kids(&self, lo: usize, kids: &Vec<NodeHandle>, out: &mut Vec<u8>)
        requires
            lo <= self.tags@.len(),
        ensures
            final(out)@ == old(out)@ + kids_html(self.tags@, lo as int, kids@, kids@.len() as int),
        decreases self.tags@.len() + 1 - lo, 0int,
    {
        let ghost nodes = self.tags@;
        let mut i: usize = 0;
        while i < kids.len()
            invariant
                lo <= nodes.len(),
                nodes == self.tags@,
                i <= kids@.len(),
                out@ == old(out)@ + kids_html(nodes, lo as int, kids@, i as int),
            decreases kids@.len() - i,
        {
            let c = kids[i].0 as usize;
            if lo <= c && c < self.tags.len() {
                self.write_html(c, out);
            }
            i += 1;
            assert(out@ =~= old(out)@ + kids_html(nodes, lo as int, kids@, i as int));
        }
    }

    /// Appends the markup of node `h`, rebuilt from the tree, to `out`.
    pub fn write_html(&self, h: usize, out: &mut Vec<u8>)
        ensures
            final(out)@ == old(out)@ + html_of(self.tags@, h as int),
        decreases self.tags@.len() - h, 1int,
    {
        if h >= self.tags.len() {
            assert(old(out)@ + html_of(self.tags@, h as int) =~= old(out)@);
            return;
        }
        match &self.tags[h] {
            Node::Tag(t) => {
                write_open_tag(t, out);
                if is_void_name(t._name.as_bytes()) {
                    assert(out@ =~= old(out)@ + html_of(self.tags@, h as int));
                    return;
                }
                self.write_kids(h + 1, &t._children, out);
                out.push(60);
                out.push(47);
                extend_bytes(out, t._name.as_bytes());
                out.push(62);
                assert(out@ =~= old(out)@ + html_of(self.tags@, h as int));
            },
            Node::Raw(b) => {
                extend_bytes(out, b.as_bytes());
            },
            Node::Comment(b) => {
                extend_bytes(out, b.as_bytes());
            },
        }
    }
}

/// Appends the opening tag of `t` to `out`.
fn write_open_tag<'a>(t: &HTMLTag<'a>, out: &mut Vec<u8>)
    ensures
        final(out)@ == old(out)@ + open_tag_html(*t),
{
    out.push(60);
    extend_bytes(out, t._name.as_bytes());
    let attrs = &t._attributes;
    let ghost mid = out@;
    let mut i: usize = 0;
    while i < attrs.len()
        invariant
            i <= attrs@.len(),
            out@ == mid + attrs_html(attrs@, i as int),
        decreases attrs@.len() - i,
    {
        let (k, v) = attrs.entry(i);
        out.push(32);
        extend_bytes(out, k.as_bytes());
        match v {
            Some(b) => {
                out.push(61);
                out.push(34);
                extend_bytes(out, b.as_bytes());
                out.push(34);
            },
            None => {},
        }
        i += 1;
        assert(out@ =~= mid + attrs_html(attrs@, i as int));
    }
    out.push(62);
    assert(out@ =~= old(out)@ + open_tag_html(*t));
}


/// The descendants of the tag `t`, in document order.
pub open spec fn tag_desc<'a>(nodes: Seq<Node<'a>>, t: HTMLTag<'a>) -> Seq<int> {
    kids_desc(nodes, 0, t._children@, t._children@.len() as int)
}

/// The markup of the children of the tag `t`.
pub open spec fn tag_inner_html<'a>(nodes: Seq<Node<'a>>, t: HTMLTag<'a>) -> Seq<u8> {
    kids_html(nodes, 0, t._children@, t._children@.len() as int)
}

/// The markup of the tag `t`, rebuilt from the tree.
pub open spec fn tag_outer_html<'a>(nodes: Seq<Node<'a>>, t: HTMLTag<'a>) -> Seq<u8> {
    open_tag_html(t) + if spec_is_void_name(t._name@) {
        Seq::empty()
    } else {
        tag_inner_html(nodes, t) + seq![60u8, 47u8] + t._name@ + seq![62u8]  // "</"
    }
}

/// The text of a node: a tag's descendant text, a text node's bytes, nothing for a comment.
pub open spec fn node_text<'a>(nodes: Seq<Node<'a>>, n: Node<'a>) -> Seq<u8> {
    match n {
        Node::Tag(t) => concat_raw(nodes, tag_desc(nodes, t)),
        Node::Raw(b) => b@,
        Node::Comment(_) => Seq::empty(),
    }
}

/// The markup of a node, rebuilt from the tree.
pub open spec fn node_html<'a>(nodes: Seq<Node<'a>>, n: Node<'a>) -> Seq<u8> {
    match n {
        Node::Tag(t) => tag_outer_html(nodes, t),
        Node::Raw(b) => b@,
        Node::Comment(b) => b@,
    }
}

impl<'a> Parser<'a> {
    /// The text of the nodes at `idx`, concatenated in that order.
    pub fn text_of_list(&self, idx: &Vec<usize>) -> (r: Vec<u8>)
        ensures
            r@ == concat_raw(self.tags@, idx@.map_values(|x: usize| x as int)),
    {
        let ghost ds = idx@.map_values(|x: usize| x as int);
        let mut out: Vec<u8> = Vec::new();
        let mut i: usize = 0;
        while i < idx.len()
            invariant
                i <= idx@.len(),
                ds == idx@.map_values(|x: usize| x as int),
                out@ == concat_raw(self.tags@, ds.subrange(0, i as int)),
            decreases idx@.len() - i,
        {
            let k = idx[i];
            assert(ds.subrange(0, i + 1).drop_last() =~= ds.subrange(0, i as int));
            if k < self.tags.len() {
                if let Node::Raw(b) = &self.tags[k] {
                    extend_bytes(&mut out, b.as_bytes());
                }
            }
            i += 1;
            assert(out@ =~= concat_raw(self.tags@, ds.subrange(0, i as int)));
        }
        assert(ds.subrange(0, ds.len() as int) =~= ds);
        out
    }
}

/// Direct children of a tag.
pub struct Children<'b, 'a> {
    tag: &'b HTMLTag<'a>,
}

impl<'b, 'a> Children<'b, 'a> {
    /// The tag whose children these are.
    pub closed spec fn owner(&self) -> HTMLTag<'a> {
        *self.tag
    }

    /// Handles of the direct children, in order.
    pub fn top(&self) -> (r: &'b Vec<NodeHandle>)
        ensures
            r@ == self.owner()._children@,
    {
        &self.tag._children
    }

    /// All descendants, in document order.
    pub fn all<'p>(&self, parser: &'p Parser<'a>) -> (r: Vec<&'p Node<'a>>)
        ensures
            r@.len() == tag_desc(parser.tags@, self.owner()).len(),
            forall|i: int| 0 <= i < r@.len() ==> *r@[i] == parser.tags@[#[trigger] tag_desc(parser.tags@, self.owner())[i]],
    {
        let mut d: Vec<usize> = Vec::new();
        parser.collect_kids(0, &self.tag._children, &mut d);
        let ghost ds = tag_desc(parser.tags@, *self.tag);
        assert(d@.map_values(|x: usize| x as int) =~= ds);
        proof {
            lemma_kids_bounds(parser.tags@, 0, self.tag._children@, self.tag._children@.len() as int);
        }
        let mut out: Vec<&'p Node<'a>> = Vec::new();
        let mut i: usize = 0;
        while i < d.len()
            invariant
                i <= d@.len(),
                ds == d@.map_values(|x: usize| x as int),
                forall|k: int| 0 <= k < ds.len() ==> 0 <= #[trigger] ds[k] < parser.tags@.len(),
                out@.len() == i,
                forall|k: int| 0 <= k < i ==> *out@[k] == parser.tags@[ds[k]],
            decreases d@.len() - i,
        {
            assert(ds[i as int] == d@[i as int]);
            out.push(&parser.tags[d[i]]);
            i += 1;
        }
        out
    }
}

impl<'a> HTMLTag<'a> {
    /// The tag name, as written in the source.
    pub fn name(&self) -> (r: &Bytes<'a>)
        ensures
            *r == self._name,
    {
        &self._name
    }

    /// The attributes.
    pub fn attributes(&self) -> (r: &Attributes<'a>)
        ensures
            *r == self._attributes,
    {
        &self._attributes
    }

    /// Mutable access to the attributes.
    pub fn attributes_mut(&mut self) -> (r: &mut Attributes<'a>)
        ensures
            *r == old(self)._attributes,
            final(self)._attributes == *final(r),
            final(self)._name == old(self)._name,
            final(self)._children == old(self)._children,
            final(self)._raw == old(self)._raw,
            final(self)._start == old(self)._start,
    {
        &mut self._attributes
    }

    /// The source text of the tag, from its `<` through its closing tag.
    pub fn raw(&self) -> (r: &Bytes<'a>)
        ensures
            *r == self._raw,
    {
        &self._raw
    }

    /// The direct children.
    pub fn children(&self) -> (r: Children<'_, 'a>)
        ensures
            r.owner() == *self,
    {
        Children { tag: self }
    }

    /// Mutable access to the handles of the direct children.
    pub fn children_mut(&mut self) -> (r: &mut Vec<NodeHandle>)
        ensures
            *r == old(self)._children,
            final(self)._children == *final(r),
            final(self)._name == old(self)._name,
            final(self)._attributes == old(self)._attributes,
            final(self)._raw == old(self)._raw,
            final(self)._start == old(self)._start,
    {
        &mut self._children
    }

    /// Offsets in the input of the tag's first and last byte.
    pub fn boundaries(&self, parser: &Parser<'a>) -> (r: (usize, usize))
        ensures
            r.0 == self._start,
            self._raw@.len() == 0 ==> r.1 == self._start,
            self._raw@.len() > 0 && self._start + self._raw@.len() - 1 <= usize::MAX ==> r.1
                == self._start + self._raw@.len() - 1,
            self._start + self._raw@.len() - 1 > usize::MAX ==> r.1 == usize::MAX,
    {
        let n = self._raw.len();
        if n == 0 {
            (self._start, self._start)
        } else if self._start <= usize::MAX - (n - 1) {
            (self._start, self._start + (n - 1))
        } else {
            (self._start, usize::MAX)
        }
    }

    /// The text of all descendants, in document order, as bytes.
    pub fn inner_text_bytes(&self, parser: &Parser<'a>) -> (r: Vec<u8>)
        ensures
            r@ == concat_raw(parser.tags@, tag_desc(parser.tags@, *self)),
    {
        let mut d: Vec<usize> = Vec::new();
        parser.collect_kids(0, &self._children, &mut d);
        assert(d@.map_values(|x: usize| x as int) =~= tag_desc(parser.tags@, *self));
        parser.text_of_list(&d)
    }

    /// The text of all descendants, in document order.
    pub fn inner_text(&self, parser: &Parser<'a>) -> (r: String)
        ensures
            r@ == lossy_utf8(concat_raw(parser.tags@, tag_desc(parser.tags@, *self))),
    {
        let b = self.inner_text_bytes(parser);
        utf8_lossy_string(b.as_slice())
    }

    /// The markup of the children as bytes.
    pub fn inner_html_bytes(&self, parser: &Parser<'a>) -> (r: Vec<u8>)
        ensures
            r@ == tag_inner_html(parser.tags@, *self),
    {
        let mut out: Vec<u8> = Vec::new();
        parser.write_kids(0, &self._children, &mut out);
        assert(out@ =~= tag_inner_html(parser.tags@, *self));
        out
    }

    /// The markup of the children.
    pub fn inner_html(&self, parser: &Parser<'a>) -> (r: String)
        ensures
            r@ == lossy_utf8(tag_inner_html(parser.tags@, *self)),
    {
        let b = self.inner_html_bytes(parser);
        utf8_lossy_string(b.as_slice())
    }

    /// The markup of the tag as bytes, rebuilt from the tree.
    pub fn outer_html_bytes(&self, parser: &Parser<'a>) -> (r: Vec<u8>)
        ensures
            r@ == tag_outer_html(parser.tags@, *self),
    {
        let mut out: Vec<u8> = Vec::new();
        write_open_tag(self, &mut out);
        if !is_void_name(self._name.as_bytes()) {
            parser.write_kids(0, &self._children, &mut out);
            out.push(60);
            out.push(47);
            extend_bytes(&mut out, self._name.as_bytes());
            out.push(62);
        }
        assert(out@ =~= tag_outer_html(parser.tags@, *self));
        out
    }

    /// The markup of the tag, rebuilt from the tree.
    pub fn outer_html(&self, parser: &Parser<'a>) -> (r: String)
        ensures
            r@ == lossy_utf8(tag_outer_html(parser.tags@, *self)),
    {
        let b = self.outer_html_bytes(parser);
        utf8_lossy_string(b.as_slice())
    }
}

impl<'a> Node<'a> {
    /// The tag, if this node is one.
    pub fn as_tag(&self) -> (r: Option<&HTMLTag<'a>>)
        ensures
            r is Some <==> self is Tag,
            r matches Some(t) ==> *self == Node::Tag(*t),
    {
        match self {
            Node::Tag(t) => Some(t),
            _ => None,
        }
    }

    /// Mutable access to the tag, if this node is one.
    pub fn as_tag_mut(&mut self) -> (r: Option<&mut HTMLTag<'a>>)
        ensures
            r is Some <==> *old(self) is Tag,
            r matches Some(t) ==> *old(self) == Node::Tag(*t) && *final(self) == Node::Tag(*final(t)),
            r is None ==> *final(self) == *old(self),
    {
        match self {
            Node::Tag(t) => Some(t),
            _ => None,
        }
    }

    /// The text, if this node is a text node.
    pub fn as_raw(&self) -> (r: Option<&Bytes<'a>>)
        ensures
            r is Some <==> self is Raw,
            r matches Some(b) ==> *self == Node::Raw(*b),
    {
        match self {
            Node::Raw(b) => Some(b),
            _ => None,
        }
    }

    /// The comment with its delimiters, if this node is a comment.
    pub fn as_comment(&self) -> (r: Option<&Bytes<'a>>)
        ensures
            r is Some <==> self is Comment,
            r matches Some(b) ==> *self == Node::Comment(*b),
    {
        match self {
            Node::Comment(b) => Some(b),
            _ => None,
        }
    }

    /// The text of the node as bytes.
    pub fn inner_text_bytes(&self, parser: &Parser<'a>) -> (r: Vec<u8>)
        ensures
            r@ == node_text(parser.tags@, *self),
    {
        match self {
            Node::Tag(t) => t.inner_text_bytes(parser),
            Node::Raw(b) => {
                let mut out: Vec<u8> = Vec::new();
                extend_bytes(&mut out, b.as_bytes());
                out
            },
            Node::Comment(_) => Vec::new(),
        }
    }

    /// The text of the node: a tag's descendant text, a text node's own text, or nothing.
    pub fn inner_text(&self, parser: &Parser<'a>) -> (r: String)
        ensures
            r@ == lossy_utf8(node_text(parser.tags@, *self)),
    {
        let b = self.inner_text_bytes(parser);
        utf8_lossy_string(b.as_slice())
    }

    /// The markup of the node as bytes, rebuilt from the tree.
    pub fn outer_html_bytes(&self, parser: &Parser<'a>) -> (r: Vec<u8>)
        ensures
            r@ == node_html(parser.tags@, *self),
    {
        match self {
            Node::Tag(t) => t.outer_html_bytes(parser),
            Node::Raw(b) => {
                let mut out: Vec<u8> = Vec::new();
                extend_bytes(&mut out, b.as_bytes());
                out
            },
            Node::Comment(b) => {
                let mut out: Vec<u8> = Vec::new();
                extend_bytes(&mut out, b.as_bytes());
                out
            },
        }
    }

    /// The markup of the node, rebuilt from the tree.
    pub fn outer_html(&self, parser: &Parser<'a>) -> (r: String)
        ensures
            r@ == lossy_utf8(node_html(parser.tags@, *self)),
    {
        let b = self.outer_html_bytes(parser);
        utf8_lossy_string(b.as_slice())
    }
}

} // verus!
