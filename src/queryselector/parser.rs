use vstd::prelude::*;

use super::spec::{
    and_opt, ident_run, lemma_runs_forward, opt_sel_view, sel_view, skip_sp, spec_attr, spec_complex, spec_complex_from,
    spec_compound, spec_compound_from, spec_list_from, spec_selector, spec_simple,
    spec_value, SelectorView,
};
use super::Selector;
use crate::stream::Stream;
use crate::util::{
    is_ident, spec_is_ident, CARET, COMMA, DOLLAR, DOT, DQUOTE, EQ, GT, HASH, LBRACKET, RBRACKET,
    SPACE, SQUOTE, STAR, TILDE,
};

verus! {

/// A query selector parser
pub struct Parser<'a> {
    stream: Stream<'a>,
}

impl<'a> Parser<'a> {
    /// The cursor lies within the input.
    pub closed spec fn wf(&self) -> bool {
        self.stream.wf()
    }

    /// The selector text.
    pub closed spec fn input(&self) -> Seq<u8> {
        self.stream.data@
    }

    /// How far the parser has read.
    pub closed spec fn pos(&self) -> int {
        self.stream.idx as int
    }

    /// Creates a new query selector parser
    pub fn new(input: &'a [u8]) -> (r: Parser<'a>)
        ensures
            r.wf(),
            r.input() == input@,
            r.pos() == 0,
    {
        Parser { stream: Stream::new(input) }
    }

    fn skip_whitespaces(&mut self) -> (r: bool)
        requires
            old(self).wf(),
        ensures
            final(self).wf(),
            final(self).stream.data == old(self).stream.data,
            final(self).stream.idx == skip_sp(old(self).stream.data@, old(self).stream.idx as int),
            old(self).stream.idx <= final(self).stream.idx,
            r == (final(self).stream.idx > old(self).stream.idx),
    {
        let start = self.stream.idx;
        let ghost d = self.stream.data@;
        while self.stream.idx < self.stream.data.len() && self.stream.data[self.stream.idx] == SPACE
            invariant
                self.wf(),
                self.stream.data == old(self).stream.data,
                d == self.stream.data@,
                start == old(self).stream.idx <= self.stream.idx,
                skip_sp(d, self.stream.idx as int) == skip_sp(d, start as int),
            decreases self.stream.data@.len() - self.stream.idx,
        {
            self.stream.advance();
        }
        self.stream.idx > start
    }

    fn read_identifier(&mut self) -> (r: &'a [u8])
        requires
            old(self).wf(),
        ensures
            final(self).wf(),
            final(self).stream.data == old(self).stream.data,
            final(self).stream.idx == ident_run(old(self).stream.data@, old(self).stream.idx as int),
            old(self).stream.idx <= final(self).stream.idx,
            r@ == old(self).stream.data@.subrange(
                old(self).stream.idx as int,
                final(self).stream.idx as int,
            ),
    {
        let start = self.stream.idx;
        let ghost d = self.stream.data@;
        while self.stream.idx < self.stream.data.len() && is_ident(self.stream.data[self.stream.idx])
            invariant
                self.wf(),
                self.stream.data == old(self).stream.data,
                d == self.stream.data@,
                start == old(self).stream.idx <= self.stream.idx,
                ident_run(d, self.stream.idx as int) == ident_run(d, start as int),
            decreases self.stream.data@.len() - self.stream.idx,
        {
            self.stream.advance();
        }
        self.stream.slice(start, self.stream.idx)
    }

    /// Parses a query selector list
    ///
    /// A query selector list is a list of complex selectors separated by
    /// commas. This is the entire query selector string.
    pub fn selector(&mut self) -> (r: Option<Selector<'a>>)
        requires
            old(self).wf(),
        ensures
            final(self).wf(),
            final(self).input() == old(self).input(),
            (opt_sel_view(r), final(self).pos()) == spec_selector(old(self).input(), old(self).pos()),
    {
        let ghost d = self.stream.data@;
        let mut left = match self.parse_complex_selector() {
            Some(l) => l,
            None => {
                return None;
            },
        };
        loop
            invariant_except_break
                spec_list_from(d, self.stream.idx as int, sel_view(left)) == spec_selector(d, old(self).stream.idx as int),
            invariant
                self.wf(),
                self.stream.data == old(self).stream.data,
                d == self.stream.data@,
            ensures
                self.wf(),
                self.stream.data == old(self).stream.data,
                (Some(sel_view(left)), self.stream.idx as int) == spec_selector(d, old(self).stream.idx as int),
            decreases self.stream.data@.len() - self.stream.idx,
        {
            let ghost before = self.stream.idx as int;
            let ghost lv0 = sel_view(left);
            match self.parse_complex_selector() {
                Some(right) => {
                    let ghost lv = sel_view(left);
                    left = Selector::Or(Box::new(left), Box::new(right));
                    assert(sel_view(left) == SelectorView::Or(Box::new(lv), Box::new(sel_view(right))));
                },
                None => {
                    assert(spec_list_from(d, before, lv0) == (Some(lv0), self.stream.idx as int));
                    break;
                },
            }
        }
        Some(left)
    }

    /// Parses a complex query selector
    ///
    /// A complex selector is series of compound selectors separated by combinators.
    fn parse_complex_selector(&mut self) -> (r: Option<Selector<'a>>)
        requires
            old(self).wf(),
        ensures
            final(self).wf(),
            final(self).stream.data == old(self).stream.data,
            old(self).stream.idx <= final(self).stream.idx,
            r is Some ==> old(self).stream.idx < final(self).stream.idx,
            (opt_sel_view(r), final(self).stream.idx as int) == spec_complex(
                old(self).stream.data@,
                old(self).stream.idx as int,
            ),
    {
        let ghost d = self.stream.data@;
        let mut left = match self.parse_compound_selector() {
            Some(l) => l,
            None => {
                return None;
            },
        };
        let mut has_whitespaces = self.skip_whitespaces();
        let ghost mid = self.stream.idx;
        loop
            invariant_except_break
                spec_complex_from(d, self.stream.idx as int, sel_view(left), has_whitespaces) == spec_complex(d, old(self).stream.idx as int),
            invariant
                self.wf(),
                self.stream.data == old(self).stream.data,
                d == self.stream.data@,
                old(self).stream.idx < mid <= self.stream.idx,
            ensures
                self.wf(),
                self.stream.data == old(self).stream.data,
                old(self).stream.idx < self.stream.idx,
                (Some(sel_view(left)), self.stream.idx as int) == spec_complex(d, old(self).stream.idx as int),
            decreases self.stream.data@.len() - self.stream.idx,
        {
            let p = self.stream.idx;
            let ghost lv = sel_view(left);
            let ghost ws = has_whitespaces;
            let tok = match self.stream.current_cpy() {
                Some(t) => t,
                None => {
                    break;
                },
            };
            if tok == COMMA {
                self.stream.advance();
                break;
            }
            if tok == GT {
                self.stream.advance();
            }
            let right = match self.parse_compound_selector() {
                Some(r) => r,
                None => {
                    self.stream.idx = p;
                    break;
                },
            };
            let ghost q = self.stream.idx as int;
            let ws_after = self.skip_whitespaces();
            let ghost rv = sel_view(right);
            left = if tok == GT {
                Selector::Parent(Box::new(left), Box::new(right))
            } else if has_whitespaces {
                Selector::Descendant(Box::new(left), Box::new(right))
            } else {
                Selector::And(Box::new(left), Box::new(right))
            };
            assert(sel_view(left) == if tok == GT {
                SelectorView::Parent(Box::new(lv), Box::new(rv))
            } else if ws {
                SelectorView::Descendant(Box::new(lv), Box::new(rv))
            } else {
                SelectorView::And(Box::new(lv), Box::new(rv))
            });
            has_whitespaces = ws_after;
        }
        Some(left)
    }

    /// Parses one simple selector: `#id`, `.class`, `*`, `[attribute]` or a tag name. Where
    /// none starts at the cursor, nothing is read.
    fn parse_simple_selector(&mut self) -> (r: Option<Selector<'a>>)
        requires
            old(self).wf(),
        ensures
            final(self).wf(),
            final(self).stream.data == old(self).stream.data,
            old(self).stream.idx <= final(self).stream.idx,
            r is Some ==> old(self).stream.idx < final(self).stream.idx,
            (opt_sel_view(r), final(self).stream.idx as int) == spec_simple(
                old(self).stream.data@,
                old(self).stream.idx as int,
            ),
    {
        let p = self.stream.idx;
        let c = match self.stream.current_cpy() {
            Some(c) => c,
            None => {
                return None;
            },
        };
        if c == HASH || c == DOT {
            if self.stream.data.len() - p > 1 && is_ident(self.stream.data[p + 1]) {
                self.stream.advance();
                proof {
                    lemma_runs_forward(self.stream.data@, self.stream.idx + 1);
                }
                let name = self.read_identifier();
                if c == HASH {
                    Some(Selector::Id(name))
                } else {
                    Some(Selector::Class(name))
                }
            } else {
                None
            }
        } else if c == STAR {
            self.stream.advance();
            Some(Selector::All)
        } else if c == LBRACKET {
            self.stream.advance();
            match self.parse_attribute() {
                Some(s) => Some(s),
                None => {
                    self.stream.idx = p;
                    None
                },
            }
        } else if is_ident(c) {
            proof {
                lemma_runs_forward(self.stream.data@, self.stream.idx + 1);
            }
            let tag = self.read_identifier();
            Some(Selector::Tag(tag))
        } else {
            None
        }
    }

    /// Parses a compound query selector
    ///
    /// A compound selector is a series of simple selectors.
    fn parse_compound_selector(&mut self) -> (r: Option<Selector<'a>>)
        requires
            old(self).wf(),
        ensures
            final(self).wf(),
            final(self).stream.data == old(self).stream.data,
            old(self).stream.idx <= final(self).stream.idx,
            r is Some ==> old(self).stream.idx < final(self).stream.idx,
            (opt_sel_view(r), final(self).stream.idx as int) == spec_compound(
                old(self).stream.data@,
                old(self).stream.idx as int,
            ),
    {
        let mut result: Option<Selector<'a>> = None;
        let ghost d = self.stream.data@;
        self.skip_whitespaces();
        loop
            invariant_except_break
                spec_compound_from(d, self.stream.idx as int, opt_sel_view(result)) == spec_compound(d, old(self).stream.idx as int),
            invariant
                self.wf(),
                self.stream.data == old(self).stream.data,
                d == self.stream.data@,
                old(self).stream.idx <= self.stream.idx,
                result is Some ==> old(self).stream.idx < self.stream.idx,
            ensures
                self.wf(),
                self.stream.data == old(self).stream.data,
                old(self).stream.idx <= self.stream.idx,
                result is Some ==> old(self).stream.idx < self.stream.idx,
                (opt_sel_view(result), self.stream.idx as int) == spec_compound(d, old(self).stream.idx as int),
            decreases self.stream.data@.len() - self.stream.idx,
        {
            let ghost before = self.stream.idx as int;
            match self.parse_simple_selector() {
                Some(right) => {
                    let ghost acc = opt_sel_view(result);
                    match result {
                        Some(left) => {
                            let ghost lv = sel_view(left);
                            let combined = Selector::And(Box::new(left), Box::new(right));
                            assert(sel_view(combined) == SelectorView::And(Box::new(lv), Box::new(sel_view(right))));
                            result = Some(combined);
                        },
                        None => {
                            result = Some(right);
                        },
                    }
                    assert(opt_sel_view(result) == Some(and_opt(acc, sel_view(right))));
                },
                None => {
                    assert(spec_compound_from(d, before, opt_sel_view(result)) == (opt_sel_view(result), self.stream.idx as int));
                    break;
                },
            }
        }
        result
    }

    fn parse_attribute(&mut self) -> (r: Option<Selector<'a>>)
        requires
            old(self).wf(),
        ensures
            final(self).wf(),
            final(self).stream.data == old(self).stream.data,
            old(self).stream.idx <= final(self).stream.idx,
            (opt_sel_view(r), final(self).stream.idx as int) == spec_attr(
                old(self).stream.data@,
                old(self).stream.idx as int,
            ),
    {
        let attribute = self.read_identifier();
        if attribute.len() == 0 {
            return None;
        }
        let tok = match self.stream.current_cpy() {
            Some(t) => t,
            None => {
                return None;
            },
        };
        if tok == RBRACKET {
            self.stream.advance();
            Some(Selector::Attribute(attribute))
        } else if tok == EQ {
            self.stream.advance();
            let value = match self.read_attribute_value() {
                Some(v) => v,
                None => {
                    return None;
                },
            };
            Some(Selector::AttributeValue(attribute, value))
        } else if tok == TILDE || tok == CARET || tok == DOLLAR || tok == STAR {
            self.stream.advance();
            if self.stream.expect_and_skip(EQ).is_none() {
                return None;
            }
            let value = match self.read_attribute_value() {
                Some(v) => v,
                None => {
                    return None;
                },
            };
            if tok == TILDE {
                Some(Selector::AttributeValueWhitespacedContains(attribute, value))
            } else if tok == CARET {
                Some(Selector::AttributeValueStartsWith(attribute, value))
            } else if tok == DOLLAR {
                Some(Selector::AttributeValueEndsWith(attribute, value))
            } else {
                Some(Selector::AttributeValueSubstring(attribute, value))
            }
        } else {
            None
        }
    }

    /// Reads an attribute value, quoted or not, and the closing `]`.
    fn read_attribute_value(&mut self) -> (r: Option<&'a [u8]>)
        requires
            old(self).wf(),
        ensures
            final(self).wf(),
            final(self).stream.data == old(self).stream.data,
            old(self).stream.idx <= final(self).stream.idx,
            (match r {
                Some(v) => Some(v@),
                None => None,
            }, final(self).stream.idx as int) == spec_value(
                old(self).stream.data@,
                old(self).stream.idx as int,
            ),
    {
        let quote = self.stream.expect_oneof_and_skip(&[DQUOTE, SQUOTE]);
        let value = self.read_identifier();
        if value.len() == 0 {
            return None;
        }
        if let Some(q) = quote {
            // Only require the given quote if the value starts with a quote
            if self.stream.expect_and_skip(q).is_none() {
                return None;
            }
        }
        if self.stream.expect_and_skip(RBRACKET).is_none() {
            return None;
        }
        Some(value)
    }
}

} // verus!
