use vstd::prelude::*;

pub mod parser;
pub mod spec;

use crate::attributes::{attr_get, class_key, id_key};
use crate::node::{HTMLTag, Node, NodeHandle};
use crate::parser::Parser as Arena;
use crate::util::{bytes_eq, is_space, spec_is_space};
use spec::sel_view;

verus! {

/// A parsed query selector.
pub enum Selector<'a> {
    /// A tag name, compared byte for byte.
    Tag(&'a [u8]),
    /// `#id`
    Id(&'a [u8]),
    /// `.class`
    Class(&'a [u8]),
    /// `*`
    All,
    /// `[name]`
    Attribute(&'a [u8]),
    /// `[name=value]`
    AttributeValue(&'a [u8], &'a [u8]),
    /// `[name~=value]`
    AttributeValueWhitespacedContains(&'a [u8], &'a [u8]),
    /// `[name^=value]`
    AttributeValueStartsWith(&'a [u8], &'a [u8]),
    /// `[name$=value]`
    AttributeValueEndsWith(&'a [u8], &'a [u8]),
    /// `[name*=value]`
    AttributeValueSubstring(&'a [u8], &'a [u8]),
    /// Both hold of the same tag.
    And(Box<Selector<'a>>, Box<Selector<'a>>),
    /// Either holds.
    Or(Box<Selector<'a>>, Box<Selector<'a>>),
    /// The second holds of a tag that has an ancestor of which the first holds.
    Descendant(Box<Selector<'a>>, Box<Selector<'a>>),
    /// The second holds of a tag whose parent the first holds of.
    Parent(Box<Selector<'a>>, Box<Selector<'a>>),
}

/// `t` occurs in `v` at `i` as a whole whitespace-separated token.
pub open spec fn token_at(v: Seq<u8>, t: Seq<u8>, i: int) -> bool {
    &&& t.len() > 0
    &&& 0 <= i && i + t.len() <= v.len()
    &&& v.subrange(i, i + t.len()) == t
    &&& (i == 0 || spec_is_space(v[i - 1]))
    &&& (i + t.len() == v.len() || spec_is_space(v[i + t.len()]))
    &&& forall|k: int| 0 <= k < t.len() ==> !spec_is_space(#[trigger] t[k])
}

/// `t` is one of the whitespace-separated tokens of `v`.
pub open spec fn has_token(v: Seq<u8>, t: Seq<u8>) -> bool {
    exists|i: int| token_at(v, t, i)
}

/// `t` occurs in `v` at `i`.
pub open spec fn sub_at(v: Seq<u8>, t: Seq<u8>, i: int) -> bool {
    0 <= i && i + t.len() <= v.len() && v.subrange(i, i + t.len()) == t
}

/// `t` occurs somewhere in `v`.
pub open spec fn has_sub(v: Seq<u8>, t: Seq<u8>) -> bool {
    exists|i: int| sub_at(v, t, i)
}

pub open spec fn is_prefix(v: Seq<u8>, t: Seq<u8>) -> bool {
    t.len() <= v.len() && v.subrange(0, t.len() as int) == t
}

pub open spec fn is_suffix(v: Seq<u8>, t: Seq<u8>) -> bool {
    t.len() <= v.len() && v.subrange(v.len() - t.len(), v.len() as int) == t
}

/// The value of attribute `name` of `t`, if it is present with a value.
pub open spec fn attr_value<'a>(t: HTMLTag<'a>, name: Seq<u8>) -> Option<Seq<u8>> {
    match attr_get(t._attributes@, name) {
        Some(Some(v)) => Some(v),
        _ => None,
    }
}

/// Whether the selector holds of node `h`: only tags are matched.
pub open spec fn sel_matches<'a>(nodes: Seq<Node<'a>>, parents: Seq<Option<u32>>, h: int, sel: Selector<'a>) -> bool
    decreases sel, 0int, 0int,
{
    if 0 <= h < nodes.len() && nodes[h] is Tag {
        let t = nodes[h]->Tag_0;
        match sel {
            Selector::Tag(n) => t._name@ == n@,
            Selector::Id(n) => attr_value(t, id_key()) == Some(n@),
            Selector::Class(n) => match attr_value(t, class_key()) {
                Some(v) => has_token(v, n@),
                None => false,
            },
            Selector::All => true,
            Selector::Attribute(n) => attr_get(t._attributes@, n@) is Some,
            Selector::AttributeValue(n, v) => attr_value(t, n@) == Some(v@),
            Selector::AttributeValueWhitespacedContains(n, v) => match attr_value(t, n@) {
                Some(x) => has_token(x, v@),
                None => false,
            },
            Selector::AttributeValueStartsWith(n, v) => match attr_value(t, n@) {
                Some(x) => is_prefix(x, v@),
                None => false,
            },
            Selector::AttributeValueEndsWith(n, v) => match attr_value(t, n@) {
                Some(x) => is_suffix(x, v@),
                None => false,
            },
            Selector::AttributeValueSubstring(n, v) => match attr_value(t, n@) {
                Some(x) => has_sub(x, v@),
                None => false,
            },
            Selector::And(a, b) => sel_matches(nodes, parents, h, *a) && sel_matches(nodes, parents, h, *b),
            Selector::Or(a, b) => sel_matches(nodes, parents, h, *a) || sel_matches(nodes, parents, h, *b),
            Selector::Descendant(a, b) => sel_matches(nodes, parents, h, *b) && anc_matches(nodes, parents, h, *a),
            Selector::Parent(a, b) => sel_matches(nodes, parents, h, *b) && {
                if h < parents.len() && parents[h] is Some && (parents[h]->0 as int) < h {
                    sel_matches(nodes, parents, parents[h]->0 as int, *a)
                } else {
                    false
                }
            },
        }
    } else {
        false
    }
}

/// Whether some ancestor of node `h`, found through the parent links, matches `a`.
pub open spec fn anc_matches<'a>(nodes: Seq<Node<'a>>, parents: Seq<Option<u32>>, h: int, a: Selector<'a>) -> bool
    decreases a, 1int, h,
{
    if 0 <= h < parents.len() && parents[h] is Some && (parents[h]->0 as int) < h {
        let p = parents[h]->0 as int;
        sel_matches(nodes, parents, p, a) || anc_matches(nodes, parents, p, a)
    } else {
        false
    }
}

/// Handles of the first `n` arena nodes that match, in document order.
pub open spec fn matching<'a>(nodes: Seq<Node<'a>>, parents: Seq<Option<u32>>, sel: Selector<'a>, n: int) -> Seq<NodeHandle>
    decreases n,
{
    if n <= 0 {
        Seq::empty()
    } else {
        matching(nodes, parents, sel, n - 1) + if sel_matches(nodes, parents, n - 1, sel) {
            seq![NodeHandle((n - 1) as u32)]
        } else {
            Seq::empty()
        }
    }
}

/// Whether a selector holds of a node depends only on its view: two selectors with the same
/// names, values and structure hold of the same nodes.
pub proof fn lemma_matches_view<'a, 'b>(
    nodes: Seq<Node<'a>>,
    parents: Seq<Option<u32>>,
    h: int,
    s1: Selector<'b>,
    s2: Selector<'b>,
)
    requires
        sel_view(s1) == sel_view(s2),
    ensures
        sel_matches(nodes, parents, h, s1) == sel_matches(nodes, parents, h, s2),
    decreases s1, 0int, 0int,
{
    match (s1, s2) {
        (Selector::And(a1, b1), Selector::And(a2, b2)) => {
            lemma_matches_view(nodes, parents, h, *a1, *a2);
            lemma_matches_view(nodes, parents, h, *b1, *b2);
        },
        (Selector::Or(a1, b1), Selector::Or(a2, b2)) => {
            lemma_matches_view(nodes, parents, h, *a1, *a2);
            lemma_matches_view(nodes, parents, h, *b1, *b2);
        },
        (Selector::Descendant(a1, b1), Selector::Descendant(a2, b2)) => {
            lemma_matches_view(nodes, parents, h, *b1, *b2);
            lemma_anc_view(nodes, parents, h, *a1, *a2);
        },
        (Selector::Parent(a1, b1), Selector::Parent(a2, b2)) => {
            lemma_matches_view(nodes, parents, h, *b1, *b2);
            if 0 <= h < parents.len() && parents[h] is Some && (parents[h]->0 as int) < h {
                lemma_matches_view(nodes, parents, parents[h]->0 as int, *a1, *a2);
            }
        },
        _ => {},
    }
}

/// Whether an ancestor matches depends only on the selector's view.
pub proof fn lemma_anc_view<'a, 'b>(
    nodes: Seq<Node<'a>>,
    parents: Seq<Option<u32>>,
    h: int,
    a1: Selector<'b>,
    a2: Selector<'b>,
)
    requires
        sel_view(a1) == sel_view(a2),
    ensures
        anc_matches(nodes, parents, h, a1) == anc_matches(nodes, parents, h, a2),
    decreases a1, 1int, h,
{
    if 0 <= h < parents.len() && parents[h] is Some && (parents[h]->0 as int) < h {
        let p = parents[h]->0 as int;
        lemma_matches_view(nodes, parents, p, a1, a2);
        lemma_anc_view(nodes, parents, p, a1, a2);
    }
}

/// The tags a query yields over the whole arena come in document order, each once, and each
/// matches the selector.
pub proof fn lemma_matching_ordered<'a>(nodes: Seq<Node<'a>>, parents: Seq<Option<u32>>, sel: Selector<'a>, n: int)
    requires
        n <= u32::MAX + 1,
    ensures
        forall|i: int, j: int|
            0 <= i < j < matching(nodes, parents, sel, n).len() ==> (#[trigger] matching(nodes, parents, sel, n)[i]).0
                < (#[trigger] matching(nodes, parents, sel, n)[j]).0,
        forall|i: int|
            0 <= i < matching(nodes, parents, sel, n).len() ==> 0 <= (#[trigger] matching(nodes, parents, sel, n)[i]).0 < n
                && sel_matches(nodes, parents, matching(nodes, parents, sel, n)[i].0 as int, sel),
    decreases n,
{
    if n > 0 {
        lemma_matching_ordered(nodes, parents, sel, n - 1);
        let prev = matching(nodes, parents, sel, n - 1);
        let cur = matching(nodes, parents, sel, n);
        if sel_matches(nodes, parents, n - 1, sel) {
            assert(cur == prev + seq![NodeHandle((n - 1) as u32)]);
            assert forall|i: int| 0 <= i < cur.len() implies 0 <= (#[trigger] cur[i]).0 < n
                && sel_matches(nodes, parents, cur[i].0 as int, sel) by {
                if i < prev.len() {
                    assert(cur[i] == prev[i]);
                }
            }
            assert forall|i: int, j: int| 0 <= i < j < cur.len() implies (#[trigger] cur[i]).0 < (#[trigger] cur[j]).0 by {
                assert(cur[i] == prev[i]);
                if j < prev.len() {
                    assert(cur[j] == prev[j]);
                }
            }
        } else {
            assert(cur =~= prev);
        }
    }
}

/// Handles of the nodes at the first `n` positions of `ds` that match, in that order.
pub open spec fn matching_in<'a>(nodes: Seq<Node<'a>>, parents: Seq<Option<u32>>, sel: Selector<'a>, ds: Seq<int>, n: int) -> Seq<NodeHandle>
    decreases n,
{
    if n <= 0 || n > ds.len() {
        Seq::empty()
    } else {
        matching_in(nodes, parents, sel, ds, n - 1) + if sel_matches(nodes, parents, ds[n - 1], sel) {
            seq![NodeHandle(ds[n - 1] as u32)]
        } else {
            Seq::empty()
        }
    }
}

/// Whether `t` is a whitespace-separated token of `v`.
pub fn contains_token(v: &[u8], t: &[u8]) -> (r: bool)
    ensures
        r == has_token(v@, t@),
{
    if t.len() == 0 || t.len() > v.len() {
        assert(forall|i: int| !token_at(v@, t@, i));
        return false;
    }
    let mut k: usize = 0;
    while k < t.len()
        invariant
            k <= t@.len(),
            forall|m: int| 0 <= m < k ==> !spec_is_space(#[trigger] t@[m]),
        decreases t@.len() - k,
    {
        if is_space(t[k]) {
            assert(forall|i: int| !token_at(v@, t@, i));
            return false;
        }
        k += 1;
    }
    let mut i: usize = 0;
    while i < v.len() && v.len() - i >= t.len()
        invariant
            i <= v@.len(),
            forall|m: int| 0 <= m < t@.len() ==> !spec_is_space(#[trigger] t@[m]),
            forall|j: int| 0 <= j < i ==> !token_at(v@, t@, j),
            t@.len() > 0,
        decreases v@.len() - i,
    {
        let e = i + t.len();
        let before = i == 0 || is_space(v[i - 1]);
        let after = e == v.len() || is_space(v[e]);
        if before && after && bytes_eq(vstd::slice::slice_subrange(v, i, e), t) {
            assert(token_at(v@, t@, i as int));
            return true;
        }
        i += 1;
    }
    assert(forall|j: int| !token_at(v@, t@, j));
    false
}

/// Whether `t` occurs in `v`.
pub fn contains_sub(v: &[u8], t: &[u8]) -> (r: bool)
    ensures
        r == has_sub(v@, t@),
{
    if t.len() > v.len() {
        assert(forall|i: int| !sub_at(v@, t@, i));
        return false;
    }
    if t.len() == 0 {
        assert(v@.subrange(0, 0) =~= t@);
        assert(sub_at(v@, t@, 0));
        return true;
    }
    let mut i: usize = 0;
    while i < v.len() && v.len() - i >= t.len()
        invariant
            i <= v@.len(),
            t@.len() > 0,
            forall|j: int| 0 <= j < i ==> !sub_at(v@, t@, j),
        decreases v@.len() - i,
    {
        if bytes_eq(vstd::slice::slice_subrange(v, i, i + t.len()), t) {
            assert(sub_at(v@, t@, i as int));
            return true;
        }
        i += 1;
    }
    assert(forall|j: int| !sub_at(v@, t@, j));
    false
}

/// Whether `v` starts with `t`.
pub fn starts_with(v: &[u8], t: &[u8]) -> (r: bool)
    ensures
        r == is_prefix(v@, t@),
{
    t.len() <= v.len() && bytes_eq(vstd::slice::slice_subrange(v, 0, t.len()), t)
}

/// Whether `v` ends with `t`.
pub fn ends_with(v: &[u8], t: &[u8]) -> (r: bool)
    ensures
        r == is_suffix(v@, t@),
{
    t.len() <= v.len() && bytes_eq(vstd::slice::slice_subrange(v, v.len() - t.len(), v.len()), t)
}

/// The value of attribute `name` of `t`, if it is present with a value.
fn value_of<'b, 'a>(t: &'b HTMLTag<'a>, name: &[u8]) -> (r: Option<&'b [u8]>)
    ensures
        match r {
            Some(v) => attr_value(*t, name@) == Some(v@),
            None => attr_value(*t, name@) is None,
        },
{
    match t._attributes.get_bytes(name) {
        Some(Some(b)) => Some(b.as_bytes()),
        _ => None,
    }
}

impl<'a> Arena<'a> {
    /// Whether `sel` holds of node `h`.
    pub fn matches(&self, h: usize, sel: &Selector) -> (r: bool)
        ensures
            r == sel_matches(self.tags@, self.parents@, h as int, *sel),
        decreases *sel, 0int, 0int,
    {
        if h >= self.tags.len() {
            return false;
        }
        let t = match &self.tags[h] {
            Node::Tag(t) => t,
            _ => {
                return false;
            },
        };
        match sel {
            Selector::Tag(n) => bytes_eq(t._name.as_bytes(), n),
            Selector::Id(n) => match value_of(t, &[105u8, 100u8]) {  // "id"
                Some(v) => bytes_eq(v, n),
                None => false,
            },
            Selector::Class(n) => match value_of(t, &[99u8, 108u8, 97u8, 115u8, 115u8]) {  // "class"
                Some(v) => contains_token(v, n),
                None => false,
            },
            Selector::All => true,
            Selector::Attribute(n) => t._attributes.get_bytes(n).is_some(),
            Selector::AttributeValue(n, v) => match value_of(t, n) {
                Some(x) => bytes_eq(x, v),
                None => false,
            },
            Selector::AttributeValueWhitespacedContains(n, v) => match value_of(t, n) {
                Some(x) => contains_token(x, v),
                None => false,
            },
            Selector::AttributeValueStartsWith(n, v) => match value_of(t, n) {
                Some(x) => starts_with(x, v),
                None => false,
            },
            Selector::AttributeValueEndsWith(n, v) => match value_of(t, n) {
                Some(x) => ends_with(x, v),
                None => false,
            },
            Selector::AttributeValueSubstring(n, v) => match value_of(t, n) {
                Some(x) => contains_sub(x, v),
                None => false,
            },
            Selector::And(a, b) => self.matches(h, a) && self.matches(h, b),
            Selector::Or(a, b) => self.matches(h, a) || self.matches(h, b),
            Selector::Descendant(a, b) => self.matches(h, b) && self.ancestor_matches(h, a),
            Selector::Parent(a, b) => {
                if !self.matches(h, b) {
                    return false;
                }
                if h < self.parents.len() {
                    match self.parents[h] {
                        Some(p) => (p as usize) < h && self.matches(p as usize, a),
                        None => false,
                    }
                } else {
                    false
                }
            },
        }
    }

    /// Whether some ancestor of node `h` matches `a`.
    pub fn ancestor_matches(&self, h: usize, a: &Selector) -> (r: bool)
        ensures
            r == anc_matches(self.tags@, self.parents@, h as int, *a),
        decreases *a, 1int, h,
    {
        if h < self.parents.len() {
            match self.parents[h] {
                Some(p) => {
                    let p = p as usize;
                    if p < h {
                        self.matches(p, a) || self.ancestor_matches(p, a)
                    } else {
                        false
                    }
                },
                None => false,
            }
        } else {
            false
        }
    }

    /// Handles of all tags in the arena that match `sel`, in document order.
    pub fn query_all(&self, sel: &Selector) -> (r: Vec<NodeHandle>)
        ensures
            r@ == matching(self.tags@, self.parents@, *sel, self.tags@.len() as int),
    {
        let mut out: Vec<NodeHandle> = Vec::new();
        let mut i: usize = 0;
        while i < self.tags.len()
            invariant
                i <= self.tags@.len(),
                out@ == matching(self.tags@, self.parents@, *sel, i as int),
            decreases self.tags@.len() - i,
        {
            if self.matches(i, sel) {
                out.push(NodeHandle(i as u32));
            }
            i += 1;
            assert(out@ =~= matching(self.tags@, self.parents@, *sel, i as int));
        }
        out
    }

    /// Handles of the nodes listed in `ds` that match `sel`, in that order.
    pub fn query_among(&self, ds: &Vec<usize>, sel: &Selector) -> (r: Vec<NodeHandle>)
        ensures
            r@ == matching_in(self.tags@, self.parents@, *sel, ds@.map_values(|x: usize| x as int), ds@.len() as int),
    {
        let ghost dv = ds@.map_values(|x: usize| x as int);
        let mut out: Vec<NodeHandle> = Vec::new();
        let mut i: usize = 0;
        while i < ds.len()
            invariant
                i <= ds@.len(),
                dv == ds@.map_values(|x: usize| x as int),
                out@ == matching_in(self.tags@, self.parents@, *sel, dv, i as int),
            decreases ds@.len() - i,
        {
            let k = ds[i];
            if self.matches(k, sel) {
                out.push(NodeHandle(k as u32));
            }
            i += 1;
            assert(out@ =~= matching_in(self.tags@, self.parents@, *sel, dv, i as int));
        }
        out
    }
}

} // verus!
