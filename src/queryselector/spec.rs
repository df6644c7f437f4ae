use vstd::prelude::*;

use super::Selector;
use crate::util::spec_is_ident;

verus! {

/// A selector as plain values: names and attribute values as byte sequences.
pub enum SelectorView {
    Tag(Seq<u8>),
    Id(Seq<u8>),
    Class(Seq<u8>),
    All,
    Attribute(Seq<u8>),
    AttributeValue(Seq<u8>, Seq<u8>),
    AttributeValueWhitespacedContains(Seq<u8>, Seq<u8>),
    AttributeValueStartsWith(Seq<u8>, Seq<u8>),
    AttributeValueEndsWith(Seq<u8>, Seq<u8>),
    AttributeValueSubstring(Seq<u8>, Seq<u8>),
    And(Box<SelectorView>, Box<SelectorView>),
    Or(Box<SelectorView>, Box<SelectorView>),
    Descendant(Box<SelectorView>, Box<SelectorView>),
    Parent(Box<SelectorView>, Box<SelectorView>),
}

/// The selector with its slices replaced by their bytes.
pub open spec fn sel_view<'a>(s: Selector<'a>) -> SelectorView
    decreases s,
{
    match s {
        Selector::Tag(n) => SelectorView::Tag(n@),
        Selector::Id(n) => SelectorView::Id(n@),
        Selector::Class(n) => SelectorView::Class(n@),
        Selector::All => SelectorView::All,
        Selector::Attribute(n) => SelectorView::Attribute(n@),
        Selector::AttributeValue(n, v) => SelectorView::AttributeValue(n@, v@),
        Selector::AttributeValueWhitespacedContains(n, v) => SelectorView::AttributeValueWhitespacedContains(n@, v@),
        Selector::AttributeValueStartsWith(n, v) => SelectorView::AttributeValueStartsWith(n@, v@),
        Selector::AttributeValueEndsWith(n, v) => SelectorView::AttributeValueEndsWith(n@, v@),
        Selector::AttributeValueSubstring(n, v) => SelectorView::AttributeValueSubstring(n@, v@),
        Selector::And(a, b) => SelectorView::And(Box::new(sel_view(*a)), Box::new(sel_view(*b))),
        Selector::Or(a, b) => SelectorView::Or(Box::new(sel_view(*a)), Box::new(sel_view(*b))),
        Selector::Descendant(a, b) => SelectorView::Descendant(Box::new(sel_view(*a)), Box::new(sel_view(*b))),
        Selector::Parent(a, b) => SelectorView::Parent(Box::new(sel_view(*a)), Box::new(sel_view(*b))),
    }
}

pub open spec fn opt_sel_view<'a>(s: Option<Selector<'a>>) -> Option<SelectorView> {
    match s {
        Some(s) => Some(sel_view(s)),
        None => None,
    }
}

/// The first position from `p` on that is not a space.
pub open spec fn skip_sp(d: Seq<u8>, p: int) -> int
    decreases d.len() - p,
{
    if 0 <= p < d.len() && d[p] == 32 {
        skip_sp(d, p + 1)
    } else {
        p
    }
}

/// The end of the run of identifier bytes from `p`.
pub open spec fn ident_run(d: Seq<u8>, p: int) -> int
    decreases d.len() - p,
{
    if 0 <= p < d.len() && spec_is_ident(d[p]) {
        ident_run(d, p + 1)
    } else {
        p
    }
}

/// Skipping spaces and reading an identifier move forward and stay within the text.
pub proof fn lemma_runs_forward(d: Seq<u8>, p: int)
    requires
        0 <= p <= d.len(),
    ensures
        p <= skip_sp(d, p) <= d.len(),
        p <= ident_run(d, p) <= d.len(),
    decreases d.len() - p,
{
    if p < d.len() {
        lemma_runs_forward(d, p + 1);
    }
}

/// An attribute value from `p`: a non-empty identifier, or one between matching quotes, then
/// `]`. Gives the value, if it is well formed, and the position reached.
pub open spec fn spec_value(d: Seq<u8>, p: int) -> (Option<Seq<u8>>, int) {
    let quoted = 0 <= p < d.len() && (d[p] == 34 || d[p] == 39);
    let p1 = if quoted { p + 1 } else { p };
    let p2 = ident_run(d, p1);
    let v = d.subrange(p1, p2);
    if p2 <= p1 {
        (None, p2)
    } else if quoted && !(p2 < d.len() && d[p2] == d[p]) {
        (None, p2)
    } else {
        let p3 = if quoted { p2 + 1 } else { p2 };
        if 0 <= p3 < d.len() && d[p3] == 93 {
            (Some(v), p3 + 1)
        } else {
            (None, p3)
        }
    }
}

/// An attribute selector from `p`, just after its `[`: a non-empty name, then `]` or an
/// operator and a value.
pub open spec fn spec_attr(d: Seq<u8>, p: int) -> (Option<SelectorView>, int) {
    let q = ident_run(d, p);
    let n = d.subrange(p, q);
    if q <= p || !(0 <= q < d.len()) {
        (None, q)
    } else if d[q] == 93 {
        (Some(SelectorView::Attribute(n)), q + 1)
    } else if d[q] == 61 {
        match spec_value(d, q + 1) {
            (Some(v), r) => (Some(SelectorView::AttributeValue(n, v)), r),
            (None, r) => (None, r),
        }
    } else if d[q] == 126 || d[q] == 94 || d[q] == 36 || d[q] == 42 {
        if q + 1 < d.len() && d[q + 1] == 61 {
            match spec_value(d, q + 2) {
                (Some(v), r) => (Some(
                    if d[q] == 126 {
                        SelectorView::AttributeValueWhitespacedContains(n, v)
                    } else if d[q] == 94 {
                        SelectorView::AttributeValueStartsWith(n, v)
                    } else if d[q] == 36 {
                        SelectorView::AttributeValueEndsWith(n, v)
                    } else {
                        SelectorView::AttributeValueSubstring(n, v)
                    },
                ), r),
                (None, r) => (None, r),
            }
        } else {
            (None, q + 1)
        }
    } else {
        (None, q)
    }
}

/// One simple selector at `p`: `#id`, `.class`, `*`, `[attribute]` or a tag name, where an id
/// or class name has at least one byte. Where none starts at `p`, nothing is read.
pub open spec fn spec_simple(d: Seq<u8>, p: int) -> (Option<SelectorView>, int) {
    if !(0 <= p < d.len()) {
        (None, p)
    } else if d[p] == 35 || d[p] == 46 {
        if p + 1 < d.len() && spec_is_ident(d[p + 1]) {
            let q = ident_run(d, p + 1);
            let n = d.subrange(p + 1, q);
            (Some(if d[p] == 35 { SelectorView::Id(n) } else { SelectorView::Class(n) }), q)
        } else {
            (None, p)
        }
    } else if d[p] == 42 {
        (Some(SelectorView::All), p + 1)
    } else if d[p] == 91 {
        match spec_attr(d, p + 1) {
            (Some(s), q) => (Some(s), q),
            (None, _) => (None, p),
        }
    } else if spec_is_ident(d[p]) {
        let q = ident_run(d, p);
        (Some(SelectorView::Tag(d.subrange(p, q))), q)
    } else {
        (None, p)
    }
}

/// `acc` and `s` joined as a compound selector.
pub open spec fn and_opt(acc: Option<SelectorView>, s: SelectorView) -> SelectorView {
    match acc {
        Some(l) => SelectorView::And(Box::new(l), Box::new(s)),
        None => s,
    }
}

/// Simple selectors from `p` on, joined to `acc`, until one does not parse.
pub open spec fn spec_compound_from(d: Seq<u8>, p: int, acc: Option<SelectorView>) -> (Option<SelectorView>, int)
    decreases d.len() - p,
{
    match spec_simple(d, p) {
        (Some(s), q) => if p < q <= d.len() {
            spec_compound_from(d, q, Some(and_opt(acc, s)))
        } else {
            (None, q)
        },
        (None, q) => (acc, q),
    }
}

/// A compound selector: leading spaces, then one or more simple selectors.
pub open spec fn spec_compound(d: Seq<u8>, p: int) -> (Option<SelectorView>, int) {
    spec_compound_from(d, skip_sp(d, p), None)
}

/// Combinators and their right sides from `p` on, applied to `left`, up to a `,` or the end.
/// `ws` tells whether spaces came just before `p`: a right side that follows spaces alone is a
/// descendant. Where no compound selector follows a combinator, the parse stops before the
/// combinator with what was built.
pub open spec fn spec_complex_from(d: Seq<u8>, p: int, left: SelectorView, ws: bool) -> (Option<SelectorView>, int)
    decreases d.len() - p,
{
    if !(0 <= p < d.len()) {
        (Some(left), p)
    } else if d[p] == 44 {
        (Some(left), p + 1)
    } else {
        let at = if d[p] == 62 { p + 1 } else { p };
        match spec_compound(d, at) {
            (Some(r), q) => {
                let q2 = skip_sp(d, q);
                let joined = if d[p] == 62 {
                    SelectorView::Parent(Box::new(left), Box::new(r))
                } else if ws {
                    SelectorView::Descendant(Box::new(left), Box::new(r))
                } else {
                    SelectorView::And(Box::new(left), Box::new(r))
                };
                if p < q2 <= d.len() {
                    spec_complex_from(d, q2, joined, q2 > q)
                } else {
                    (None, q2)
                }
            },
            (None, _) => (Some(left), p),
        }
    }
}

/// A complex selector: compound selectors joined by combinators, ended by `,` or the end.
pub open spec fn spec_complex(d: Seq<u8>, p: int) -> (Option<SelectorView>, int) {
    match spec_compound(d, p) {
        (Some(l), q) => spec_complex_from(d, skip_sp(d, q), l, skip_sp(d, q) > q),
        (None, q) => (None, q),
    }
}

/// Further complex selectors from `p` on, joined to `left` as alternatives.
pub open spec fn spec_list_from(d: Seq<u8>, p: int, left: SelectorView) -> (Option<SelectorView>, int)
    decreases d.len() - p,
{
    match spec_complex(d, p) {
        (Some(r), q) => if p < q <= d.len() {
            spec_list_from(d, q, SelectorView::Or(Box::new(left), Box::new(r)))
        } else {
            (None, q)
        },
        (None, q) => (Some(left), q),
    }
}

/// A selector list from `p`: what a selector text parses to, and how far the parse reads.
pub open spec fn spec_selector(d: Seq<u8>, p: int) -> (Option<SelectorView>, int) {
    match spec_complex(d, p) {
        (Some(l), q) => spec_list_from(d, q, l),
        (None, q) => (None, q),
    }
}

} // verus!
