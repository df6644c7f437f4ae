use vstd::prelude::*;

use crate::attributes::{attr_get, id_key};
use crate::bytes::{lossy_utf8, utf8_lossy_string};
use crate::node::{html_of, tag_desc, HTMLTag, Node, NodeHandle};
use crate::parser::{
    arena_wf, node_in_input, node_view, parse_document, roots_wf, spec_parse, HTMLVersion, Parser, ParserOptions, MAX_INPUT,
};
use crate::queryselector::parser::Parser as SelectorParser;
use crate::queryselector::spec::{sel_view, spec_selector};
use crate::queryselector::{matching, matching_in, sel_matches, Selector};
use vstd::string::StringSliceAdditionalSpecFns;
use vstd::utf8::encode_utf8;

verus! {

broadcast use vstd::std_specs::vec::axiom_spec_into_iter;

/// Selecting by id holds of a node exactly when it is a tag with that `id`.
proof fn lemma_id_match<'a, 'b>(nodes: Seq<Node<'a>>, parents: Seq<Option<u32>>, h: int, n: &'b [u8])
    requires
        0 <= h < nodes.len(),
    ensures
        sel_matches(nodes, parents, h, Selector::Id(n)) == has_id(nodes[h], n@),
{
    match nodes[h] {
        Node::Tag(t) => {
            assert(nodes[h]->Tag_0 == t);
            match attr_get(t._attributes@, id_key()) {
                Some(Some(v)) => {},
                _ => {},
            }
        },
        _ => {},
    }
}

/// Why a document could not be parsed.
#[derive(Debug, Clone, Copy, PartialEq, Eq, Structural)]
pub enum ParseError {
    /// The input is longer than `u32::MAX` bytes.
    InvalidLength,
}

/// A parsed document.
pub struct VDom<'a> {
    parser: Parser<'a>,
    roots: Vec<NodeHandle>,
    version: Option<HTMLVersion>,
    options: ParserOptions,
}

/// The markup of the first `n` top-level nodes.
pub open spec fn roots_html<'a>(nodes: Seq<Node<'a>>, roots: Seq<NodeHandle>, n: int) -> Seq<u8>
    decreases n,
{
    if n <= 0 || n > roots.len() {
        Seq::empty()
    } else {
        roots_html(nodes, roots, n - 1) + html_of(nodes, roots[n - 1].0 as int)
    }
}

/// `h` is the first tag in the arena whose `id` attribute is `id`.
pub open spec fn first_with_id<'a>(nodes: Seq<Node<'a>>, id: Seq<u8>, h: int) -> bool {
    &&& 0 <= h < nodes.len()
    &&& has_id(nodes[h], id)
    &&& forall|j: int| 0 <= j < h ==> !has_id(#[trigger] nodes[j], id)
}

/// The node is a tag whose `id` attribute is `id`.
pub open spec fn has_id<'a>(n: Node<'a>, id: Seq<u8>) -> bool {
    match n {
        Node::Tag(t) => attr_get(t._attributes@, id_key()) == Some(Some(id)),
        _ => false,
    }
}

impl<'a> VDom<'a> {
    /// The arena is well formed and every top-level handle lies in it.
    pub closed spec fn wf(&self) -> bool {
        arena_wf(self.parser.tags@, self.parser.parents@) && roots_wf(self.parser.tags@, self.roots@)
    }

    /// The node arena.
    pub closed spec fn arena(&self) -> Parser<'a> {
        self.parser
    }

    /// The top-level nodes.
    pub closed spec fn top(&self) -> Seq<NodeHandle> {
        self.roots@
    }

    /// The declared version.
    pub closed spec fn spec_version(&self) -> Option<HTMLVersion> {
        self.version
    }

    /// The options the document was parsed with.
    pub closed spec fn spec_options(&self) -> ParserOptions {
        self.options
    }

    /// The arena, through which handles are resolved to nodes.
    pub fn parser(&self) -> (r: &Parser<'a>)
        ensures
            *r == self.arena(),
    {
        &self.parser
    }

    /// Mutable access to the arena.
    pub fn parser_mut(&mut self) -> (r: &mut Parser<'a>)
        ensures
            *r == old(self).arena(),
            final(self).arena() == *final(r),
            final(self).top() == old(self).top(),
            final(self).spec_version() == old(self).spec_version(),
    {
        &mut self.parser
    }

    /// Handles of the top-level nodes, in document order.
    pub fn children(&self) -> (r: &Vec<NodeHandle>)
        ensures
            r@ == self.top(),
    {
        &self.roots
    }

    /// Mutable access to the handles of the top-level nodes.
    pub fn children_mut(&mut self) -> (r: &mut Vec<NodeHandle>)
        ensures
            r@ == old(self).top(),
            final(self).top() == final(r)@,
            final(self).arena() == old(self).arena(),
            final(self).spec_version() == old(self).spec_version(),
    {
        &mut self.roots
    }

    /// Every node, in document order.
    pub fn nodes(&self) -> (r: &Vec<Node<'a>>)
        ensures
            r@ == self.arena().tags@,
    {
        &self.parser.tags
    }

    /// Mutable access to the nodes.
    pub fn nodes_mut(&mut self) -> (r: &mut Vec<Node<'a>>)
        ensures
            r@ == old(self).arena().tags@,
            final(self).arena().tags@ == final(r)@,
            final(self).arena().parents == old(self).arena().parents,
            final(self).top() == old(self).top(),
    {
        &mut self.parser.tags
    }

    /// The version named by the document type declaration, if one was recognised.
    pub fn version(&self) -> (r: Option<HTMLVersion>)
        ensures
            r == self.spec_version(),
    {
        self.version
    }

    /// The options the document was parsed with.
    pub fn options(&self) -> (r: ParserOptions)
        ensures
            r == self.spec_options(),
    {
        self.options
    }

    /// The markup of the whole document, rebuilt from the tree, as bytes.
    pub fn outer_html_bytes(&self) -> (r: Vec<u8>)
        ensures
            r@ == roots_html(self.arena().tags@, self.top(), self.top().len() as int),
    {
        let mut out: Vec<u8> = Vec::new();
        let mut i: usize = 0;
        while i < self.roots.len()
            invariant
                i <= self.roots@.len(),
                out@ == roots_html(self.parser.tags@, self.roots@, i as int),
            decreases self.roots@.len() - i,
        {
            self.parser.write_html(self.roots[i].0 as usize, &mut out);
            i += 1;
        }
        out
    }

    /// The markup of the whole document, rebuilt from the tree.
    pub fn outer_html(&self) -> (r: String)
        ensures
            r@ == lossy_utf8(roots_html(self.arena().tags@, self.top(), self.top().len() as int)),
    {
        let b = self.outer_html_bytes();
        utf8_lossy_string(b.as_slice())
    }

    /// The first tag whose `id` attribute equals the bytes `id`, among the nodes that a
    /// 32-bit handle can name. The arena is searched in document order, whether or not ids
    /// were tracked, so the result does not depend on the options.
    pub fn get_element_by_id_bytes(&self, id: &[u8]) -> (r: Option<NodeHandle>)
        ensures
            match r {
                Some(h) => first_with_id(self.arena().tags@, id@, h.0 as int),
                None => forall|j: int|
                    0 <= j < self.arena().tags@.len() && j <= u32::MAX ==> !has_id(
                        #[trigger] self.arena().tags@[j],
                        id@,
                    ),
            },
    {
        let sel = Selector::Id(id);
        let mut i: usize = 0;
        while i < self.parser.tags.len() && i <= MAX_INPUT
            invariant
                i <= self.parser.tags@.len(),
                i <= MAX_INPUT + 1,
                sel == Selector::Id(id),
                forall|j: int| 0 <= j < i ==> !has_id(#[trigger] self.parser.tags@[j], id@),
            decreases self.parser.tags@.len() - i,
        {
            proof {
                lemma_id_match(self.parser.tags@, self.parser.parents@, i as int, id);
            }
            let m = self.parser.matches(i, &sel);
            assert(m == sel_matches(self.parser.tags@, self.parser.parents@, i as int, Selector::Id(id)));
            assert(m == has_id(self.parser.tags@[i as int], id@));
            if m {
                assert(first_with_id(self.parser.tags@, id@, i as int));
                return Some(NodeHandle(i as u32));
            }
            i += 1;
        }
        None
    }

    /// The first tag whose `id` attribute is `id`; see `get_element_by_id_bytes`.
    pub fn get_element_by_id(&self, id: &str) -> (r: Option<NodeHandle>)
        ensures
            match r {
                Some(h) => first_with_id(self.arena().tags@, id.spec_bytes(), h.0 as int),
                None => forall|j: int|
                    0 <= j < self.arena().tags@.len() && j <= u32::MAX ==> !has_id(
                        #[trigger] self.arena().tags@[j],
                        id.spec_bytes(),
                    ),
            },
    {
        self.get_element_by_id_bytes(id.as_bytes())
    }

    /// Handles of all tags that match `sel`, in document order.
    pub fn query_selector_handles(&self, sel: &Selector) -> (r: Vec<NodeHandle>)
        ensures
            r@ == matching(self.arena().tags@, self.arena().parents@, *sel, self.arena().tags@.len() as int),
    {
        self.parser.query_all(sel)
    }

    /// Handles of all tags whose class list holds the token `class`, in document order.
    pub fn get_elements_by_class_name<'c>(&self, class: &'c str) -> (r: std::vec::IntoIter<NodeHandle>)
        ensures
            exists|n: &'c [u8]|
                n@ == class.spec_bytes() && vstd::std_specs::vec::into_iter_elts(r) == matching(
                    self.arena().tags@,
                    self.arena().parents@,
                    Selector::Class(n),
                    self.arena().tags@.len() as int,
                ),
    {
        let n = class.as_bytes();
        let sel = Selector::Class(n);
        let r = self.parser.query_all(&sel).into_iter();
        assert(n@ == class.spec_bytes() && vstd::std_specs::vec::into_iter_elts(r) == matching(
            self.arena().tags@,
            self.arena().parents@,
            Selector::Class(n),
            self.arena().tags@.len() as int,
        ));
        r
    }

    /// Parses `selector` and yields the handles of the tags that match it, in document order;
    /// `None` where the selector text does not parse.
    pub fn query_selector<'s>(&self, selector: &'s str) -> (r: Option<std::vec::IntoIter<NodeHandle>>)
        ensures
            r is Some <==> spec_selector(selector.spec_bytes(), 0).0 is Some,
            r matches Some(it) ==> exists|sel: Selector<'s>|
                spec_selector(selector.spec_bytes(), 0).0 == Some(sel_view(sel))
                    && vstd::std_specs::vec::into_iter_elts(it) == matching(
                    self.arena().tags@,
                    self.arena().parents@,
                    sel,
                    self.arena().tags@.len() as int,
                ),
    {
        let mut p = SelectorParser::new(selector.as_bytes());
        match p.selector() {
            Some(sel) => {
                let r = self.parser.query_all(&sel).into_iter();
                assert(spec_selector(selector.spec_bytes(), 0).0 == Some(sel_view(sel))
                    && vstd::std_specs::vec::into_iter_elts(r) == matching(
                    self.arena().tags@,
                    self.arena().parents@,
                    sel,
                    self.arena().tags@.len() as int,
                ));
                Some(r)
            },
            None => None,
        }
    }
}

/// Parses `input` into a document. Parsing never fails on content: the only error is an input
/// too long for 32-bit handles.
pub fn parse<'a>(input: &'a str, options: ParserOptions) -> (r: Result<VDom<'a>, ParseError>)
    ensures
        r is Ok <==> input.spec_bytes().len() <= MAX_INPUT,
        r matches Ok(d) ==> d.wf() && d.arena().tags@.len() <= input.spec_bytes().len()
            && d.spec_options() == options && forall|j: int|
            0 <= j < d.arena().tags@.len() ==> node_in_input(
                #[trigger] d.arena().tags@[j],
                input.spec_bytes(),
            ),
        r matches Ok(d) ==> d.arena().tags@.map_values(|n: Node<'a>| node_view(n)) == spec_parse(input.spec_bytes()).nodes
            && d.arena().parents@ == spec_parse(input.spec_bytes()).parents
            && d.top() == spec_parse(input.spec_bytes()).roots
            && d.spec_version() == spec_parse(input.spec_bytes()).version,
{
    let bytes = input.as_bytes();
    if bytes.len() > MAX_INPUT {
        return Err(ParseError::InvalidLength);
    }
    let doc = parse_document(bytes);
    Ok(VDom { parser: doc.arena, roots: doc.roots, version: doc.version, options })
}

/// A document that owns its input. Its tree is rebuilt from the input on each view, so the
/// value can be moved freely.
pub struct VDomGuard {
    input: String,
    options: ParserOptions,
}

impl VDomGuard {
    /// The input fits 32-bit handles.
    #[verifier::type_invariant]
    spec fn fits(&self) -> bool {
        encode_utf8(self.input@).len() <= MAX_INPUT
    }

    /// The input the document was parsed from.
    pub closed spec fn spec_input(&self) -> Seq<char> {
        self.input@
    }

    /// The options the document is parsed with.
    pub closed spec fn spec_options(&self) -> ParserOptions {
        self.options
    }

    /// A view of the document, borrowing from the owned input.
    pub fn get_ref(&self) -> (r: VDom<'_>)
        ensures
            r.wf(),
            r.spec_options() == self.spec_options(),
            forall|j: int|
                0 <= j < r.arena().tags@.len() ==> node_in_input(
                    #[trigger] r.arena().tags@[j],
                    encode_utf8(self.spec_input()),
                ),
            r.arena().tags@.map_values(|n: Node<'_>| node_view(n)) == spec_parse(encode_utf8(self.spec_input())).nodes,
            r.arena().parents@ == spec_parse(encode_utf8(self.spec_input())).parents,
            r.top() == spec_parse(encode_utf8(self.spec_input())).roots,
            r.spec_version() == spec_parse(encode_utf8(self.spec_input())).version,
    {
        proof {
            use_type_invariant(self);
        }
        let bytes = self.input.as_str().as_bytes();
        let doc = parse_document(bytes);
        VDom { parser: doc.arena, roots: doc.roots, version: doc.version, options: self.options }
    }
}

/// Parses an owned input; the same as `parse`, with the document holding its input.
pub fn parse_owned(input: String, options: ParserOptions) -> (r: Result<VDomGuard, ParseError>)
    ensures
        r is Ok <==> encode_utf8(input@).len() <= MAX_INPUT,
        r matches Ok(g) ==> g.spec_input() == input@ && g.spec_options() == options,
{
    let n = input.as_str().as_bytes().len();
    if n > MAX_INPUT {
        return Err(ParseError::InvalidLength);
    }
    Ok(VDomGuard { input, options })
}

impl<'a> HTMLTag<'a> {
    /// Parses `selector` and yields the handles of the descendants of this tag that match
    /// it, in document order; `None` where the selector text does not parse.
    pub fn query_selector<'s>(&self, parser: &Parser<'a>, selector: &'s str) -> (r: Option<std::vec::IntoIter<NodeHandle>>)
        ensures
            r is Some <==> spec_selector(selector.spec_bytes(), 0).0 is Some,
            r matches Some(it) ==> exists|sel: Selector<'s>|
                spec_selector(selector.spec_bytes(), 0).0 == Some(sel_view(sel))
                    && vstd::std_specs::vec::into_iter_elts(it) == matching_in(
                    parser.tags@,
                    parser.parents@,
                    sel,
                    tag_desc(parser.tags@, *self),
                    tag_desc(parser.tags@, *self).len() as int,
                ),
    {
        let mut p = SelectorParser::new(selector.as_bytes());
        match p.selector() {
            Some(sel) => {
                let mut d: Vec<usize> = Vec::new();
                parser.collect_kids(0, &self._children, &mut d);
                assert(d@.map_values(|x: usize| x as int) =~= tag_desc(parser.tags@, *self));
                let r = parser.query_among(&d, &sel).into_iter();
                assert(spec_selector(selector.spec_bytes(), 0).0 == Some(sel_view(sel))
                    && vstd::std_specs::vec::into_iter_elts(r) == matching_in(
                    parser.tags@,
                    parser.parents@,
                    sel,
                    tag_desc(parser.tags@, *self),
                    tag_desc(parser.tags@, *self).len() as int,
                ));
                Some(r)
            },
            None => None,
        }
    }
}

} // verus!
