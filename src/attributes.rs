use vstd::prelude::*;

use crate::bytes::Bytes;
use crate::util::{bytes_eq, is_space, spec_is_space};
use vstd::string::StringSliceAdditionalSpecFns;

verus! {

/// An attribute as plain values: its name, and its value unless it has none.
pub type AttrView = (Seq<u8>, Option<Seq<u8>>);

pub open spec fn opt_view<'a>(v: Option<Bytes<'a>>) -> Option<Seq<u8>> {
    match v {
        Some(b) => Some(b@),
        None => None,
    }
}

/// The attribute name `id`.
pub open spec fn id_key() -> Seq<u8> {
    seq![105u8, 100u8]
}

/// The attribute name `class`.
pub open spec fn class_key() -> Seq<u8> {
    seq![99u8, 108u8, 97u8, 115u8, 115u8]
}

/// `i` is the first position of an attribute named `name`.
pub open spec fn first_attr(s: Seq<AttrView>, name: Seq<u8>, i: int) -> bool {
    0 <= i < s.len() && s[i].0 == name && forall|j: int| 0 <= j < i ==> (#[trigger] s[j]).0 != name
}

/// No attribute is named `name`.
pub open spec fn attr_absent(s: Seq<AttrView>, name: Seq<u8>) -> bool {
    forall|j: int| 0 <= j < s.len() ==> (#[trigger] s[j]).0 != name
}

/// The value of the first attribute named `name`: `None` if there is none, `Some(None)` if it
/// has no value.
pub open spec fn attr_get(s: Seq<AttrView>, name: Seq<u8>) -> Option<Option<Seq<u8>>> {
    if exists|i: int| first_attr(s, name, i) {
        Some(s[choose|i: int| first_attr(s, name, i)].1)
    } else {
        None
    }
}

/// The attributes after setting `name` to `v`: the first attribute of that name takes the new
/// value in place, or, if there is none, the attribute is appended.
pub open spec fn attr_insert(s: Seq<AttrView>, name: Seq<u8>, v: Option<Seq<u8>>) -> Seq<AttrView> {
    if exists|i: int| first_attr(s, name, i) {
        s.update(choose|i: int| first_attr(s, name, i), (name, v))
    } else {
        s.push((name, v))
    }
}

pub proof fn lemma_first_attr_unique(s: Seq<AttrView>, name: Seq<u8>, i: int)
    requires
        first_attr(s, name, i),
    ensures
        attr_get(s, name) == Some(s[i].1),
{
    let k = choose|k: int| first_attr(s, name, k);
    if k < i {
        assert(s[k].0 != name);
    } else if i < k {
        assert(s[i].0 != name);
    }
}

pub proof fn lemma_absent_get(s: Seq<AttrView>, name: Seq<u8>)
    requires
        attr_absent(s, name),
    ensures
        attr_get(s, name) is None,
{
    if exists|i: int| first_attr(s, name, i) {
        let k = choose|k: int| first_attr(s, name, k);
        assert(s[k].0 != name);
    }
}

/// The first position from `p` on that is not whitespace.
pub open spec fn skip_space(v: Seq<u8>, p: int) -> int
    decreases v.len() - p,
{
    if 0 <= p < v.len() && spec_is_space(v[p]) {
        skip_space(v, p + 1)
    } else {
        p
    }
}

/// The end of the run of non-whitespace bytes from `p`.
pub open spec fn word_end(v: Seq<u8>, p: int) -> int
    decreases v.len() - p,
{
    if 0 <= p < v.len() && !spec_is_space(v[p]) {
        word_end(v, p + 1)
    } else {
        p
    }
}

proof fn lemma_scan_forward(v: Seq<u8>, p: int)
    requires
        0 <= p <= v.len(),
    ensures
        p <= skip_space(v, p) <= v.len(),
        p <= word_end(v, p) <= v.len(),
    decreases v.len() - p,
{
    if p < v.len() {
        lemma_scan_forward(v, p + 1);
    }
}

/// The whitespace-separated tokens of `v` from `p` on, in order.
pub open spec fn tokens_from(v: Seq<u8>, p: int) -> Seq<Seq<u8>>
    decreases v.len() - p,
{
    let s = skip_space(v, p);
    if !(0 <= p && s < v.len()) {
        Seq::empty()
    } else {
        let e = word_end(v, s);
        if p <= s < e <= v.len() {
            seq![v.subrange(s, e)] + tokens_from(v, e)
        } else {
            Seq::empty()
        }
    }
}

/// The attributes of a tag, in the order they were inserted.
#[derive(Debug)]
pub struct Attributes<'a> {
    entries: Vec<(Bytes<'a>, Option<Bytes<'a>>)>,
}

impl<'a> View for Attributes<'a> {
    type V = Seq<AttrView>;

    closed spec fn view(&self) -> Seq<AttrView> {
        Seq::new(self.entries@.len(), |i: int| (self.entries@[i].0@, opt_view(self.entries@[i].1)))
    }
}

impl<'a> Attributes<'a> {
    /// An empty attribute map.
    pub fn new() -> (r: Attributes<'a>)
        ensures
            r@ == Seq::<AttrView>::empty(),
    {
        let r = Attributes { entries: Vec::new() };
        assert(r@ =~= Seq::<AttrView>::empty());
        r
    }

    /// Number of attributes.
    pub fn len(&self) -> (r: usize)
        ensures
            r == self@.len(),
    {
        self.entries.len()
    }

    /// Position of the first attribute named `name`.
    fn position(&self, name: &[u8]) -> (r: Option<usize>)
        ensures
            match r {
                Some(i) => first_attr(self@, name@, i as int),
                None => attr_absent(self@, name@),
            },
    {
        let mut i: usize = 0;
        while i < self.entries.len()
            invariant
                i <= self@.len(),
                self@.len() == self.entries@.len(),
                forall|j: int| 0 <= j < i ==> (#[trigger] self@[j]).0 != name@,
            decreases self.entries@.len() - i,
        {
            if bytes_eq(self.entries[i].0.as_bytes(), name) {
                return Some(i);
            }
            i += 1;
        }
        None
    }

    /// The value of the attribute named by the bytes `name`.
    pub fn get_bytes(&self, name: &[u8]) -> (r: Option<Option<&Bytes<'a>>>)
        ensures
            match r {
                None => attr_get(self@, name@) is None,
                Some(None) => attr_get(self@, name@) == Some(None::<Seq<u8>>),
                Some(Some(b)) => attr_get(self@, name@) == Some(Some(b@)),
            },
    {
        match self.position(name) {
            Some(i) => {
                proof {
                    lemma_first_attr_unique(self@, name@, i as int);
                }
                match &self.entries[i].1 {
                    Some(b) => Some(Some(b)),
                    None => Some(None),
                }
            },
            None => {
                proof {
                    lemma_absent_get(self@, name@);
                }
                None
            },
        }
    }

    /// The value of the attribute `name`: `None` if absent, `Some(None)` if valueless.
    pub fn get(&self, name: &str) -> (r: Option<Option<&Bytes<'a>>>)
        ensures
            match r {
                None => attr_get(self@, name.spec_bytes()) is None,
                Some(None) => attr_get(self@, name.spec_bytes()) == Some(None::<Seq<u8>>),
                Some(Some(b)) => attr_get(self@, name.spec_bytes()) == Some(Some(b@)),
            },
    {
        self.get_bytes(name.as_bytes())
    }

    /// Mutable access to the value of the first attribute named `name`: `None` if absent,
    /// `Some(None)` if valueless.
    pub fn get_mut(&mut self, name: &str) -> (r: Option<Option<&mut Bytes<'a>>>)
        ensures
            match r {
                None => attr_get(old(self)@, name.spec_bytes()) is None && final(self)@ == old(self)@,
                Some(None) => attr_get(old(self)@, name.spec_bytes()) == Some(None::<Seq<u8>>)
                    && final(self)@ == old(self)@,
                Some(Some(b)) => attr_get(old(self)@, name.spec_bytes()) == Some(Some(b@)) && (
                exists|i: int|
                    first_attr(old(self)@, name.spec_bytes(), i) && final(self)@ == old(self)@.update(
                        i,
                        (name.spec_bytes(), Some(final(b)@)),
                    )),
            },
    {
        match self.position(name.as_bytes()) {
            Some(i) => {
                proof {
                    lemma_first_attr_unique(self@, name.spec_bytes(), i as int);
                }
                let e = &mut self.entries[i];
                match &mut e.1 {
                    Some(b) => Some(Some(b)),
                    None => Some(None),
                }
            },
            None => {
                proof {
                    lemma_absent_get(self@, name.spec_bytes());
                }
                None
            },
        }
    }

    /// Sets the attribute named `name` to `value`: the first attribute of that name is
    /// replaced in place, or, if there is none, the attribute is appended.
    pub fn insert_bytes(&mut self, name: Bytes<'a>, value: Option<Bytes<'a>>)
        ensures
            final(self)@ == attr_insert(old(self)@, name@, opt_view(value)),
            (exists|i: int| first_attr(old(self)@, name@, i) && final(self)@ == old(self)@.update(
                i,
                (name@, opt_view(value)),
            )) || attr_absent(old(self)@, name@) && final(self)@ == old(self)@.push(
                (name@, opt_view(value)),
            ),
    {
        let ghost nv = name@;
        let ghost vv = opt_view(value);
        match self.position(name.as_bytes()) {
            Some(i) => {
                self.entries.set(i, (name, value));
                assert(self@ =~= old(self)@.update(i as int, (nv, vv)));
                assert(first_attr(old(self)@, nv, i as int));
                let ghost k = choose|k: int| first_attr(old(self)@, nv, k);
                assert(k == i) by {
                    if k < i {
                        assert(old(self)@[k].0 != nv);
                    } else if i < k {
                        assert(old(self)@[i as int].0 != nv);
                    }
                }
            },
            None => {
                self.entries.push((name, value));
                assert(self@ =~= old(self)@.push((nv, vv)));
                assert(!exists|k: int| first_attr(old(self)@, nv, k)) by {
                    if exists|k: int| first_attr(old(self)@, nv, k) {
                        let k = choose|k: int| first_attr(old(self)@, nv, k);
                        assert(old(self)@[k].0 != nv);
                    }
                }
            },
        }
    }

    /// Sets the attribute `name` to `value`; see `insert_bytes`.
    pub fn insert(&mut self, name: &'a str, value: Option<Bytes<'a>>)
        ensures
            (exists|i: int| first_attr(old(self)@, name.spec_bytes(), i) && final(self)@ == old(
                self,
            )@.update(i, (name.spec_bytes(), opt_view(value)))) || attr_absent(
                old(self)@,
                name.spec_bytes(),
            ) && final(self)@ == old(self)@.push((name.spec_bytes(), opt_view(value))),
    {
        self.insert_bytes(Bytes::from_slice(name.as_bytes()), value)
    }

    /// Removes the first attribute named `name`, if there is one.
    pub fn remove(&mut self, name: &str)
        ensures
            (exists|i: int| first_attr(old(self)@, name.spec_bytes(), i) && final(self)@ == old(
                self,
            )@.remove(i)) || attr_absent(old(self)@, name.spec_bytes()) && final(self)@ == old(
                self,
            )@,
    {
        match self.position(name.as_bytes()) {
            Some(i) => {
                self.entries.remove(i);
                assert(self@ =~= old(self)@.remove(i as int));
                assert(first_attr(old(self)@, name.spec_bytes(), i as int));
            },
            None => {
                assert(self@ =~= old(self)@);
            },
        }
    }

    /// Keeps the first attribute named `name` but drops its value.
    pub fn remove_value(&mut self, name: &str)
        ensures
            (exists|i: int| first_attr(old(self)@, name.spec_bytes(), i) && final(self)@ == old(
                self,
            )@.update(i, (name.spec_bytes(), None))) || attr_absent(old(self)@, name.spec_bytes())
                && final(self)@ == old(self)@,
    {
        match self.position(name.as_bytes()) {
            Some(i) => {
                let key = self.entries[i].0.clone_bytes();
                self.entries.set(i, (key, None));
                assert(self@ =~= old(self)@.update(i as int, (name.spec_bytes(), None)));
                assert(first_attr(old(self)@, name.spec_bytes(), i as int));
            },
            None => {
                assert(self@ =~= old(self)@);
            },
        }
    }

    /// The value of the `id` attribute, if it is present with a value.
    pub fn id(&self) -> (r: Option<&Bytes<'a>>)
        ensures
            match r {
                Some(b) => attr_get(self@, id_key()) == Some(Some(b@)),
                None => !(attr_get(self@, id_key()) matches Some(Some(_))),
            },
    {
        let key: [u8; 2] = [105, 100];
        assert(key@ == id_key());
        match self.get_bytes(&key) {
            Some(Some(b)) => Some(b),
            _ => None,
        }
    }

    /// The value of the `class` attribute, if it is present with a value.
    pub fn class(&self) -> (r: Option<&Bytes<'a>>)
        ensures
            match r {
                Some(b) => attr_get(self@, class_key()) == Some(Some(b@)),
                None => !(attr_get(self@, class_key()) matches Some(Some(_))),
            },
    {
        let key: [u8; 5] = [99, 108, 97, 115, 115];
        assert(key@ == class_key());
        match self.get_bytes(&key) {
            Some(Some(b)) => Some(b),
            _ => None,
        }
    }

    /// The whitespace-separated tokens of the `class` attribute, in order; none where it is
    /// absent or has no value.
    pub fn class_iter(&self) -> (r: Vec<&[u8]>)
        ensures
            r@.map_values(|t: &[u8]| t@) == match attr_get(self@, class_key()) {
                Some(Some(v)) => tokens_from(v, 0),
                _ => Seq::empty(),
            },
    {
        let mut out: Vec<&[u8]> = Vec::new();
        let v = match self.class() {
            Some(b) => b.as_bytes(),
            None => {
                assert(out@.map_values(|t: &[u8]| t@) =~= Seq::<Seq<u8>>::empty());
                return out;
            },
        };
        let mut p: usize = 0;
        loop
            invariant
                p <= v@.len(),
                attr_get(self@, class_key()) == Some(Some(v@)),
                out@.map_values(|t: &[u8]| t@) + tokens_from(v@, p as int) == tokens_from(v@, 0),
            decreases v@.len() - p,
        {
            proof {
                lemma_scan_forward(v@, p as int);
            }
            let mut s = p;
            while s < v.len() && is_space(v[s])
                invariant
                    p <= s <= v@.len(),
                    skip_space(v@, s as int) == skip_space(v@, p as int),
                decreases v@.len() - s,
            {
                s += 1;
            }
            if s >= v.len() {
                assert(skip_space(v@, s as int) == s);
                assert(tokens_from(v@, p as int) =~= Seq::<Seq<u8>>::empty());
                assert(out@.map_values(|t: &[u8]| t@) + Seq::<Seq<u8>>::empty() =~= out@.map_values(|t: &[u8]| t@));
                return out;
            }
            let mut e = s;
            while e < v.len() && !is_space(v[e])
                invariant
                    s <= e <= v@.len(),
                    word_end(v@, e as int) == word_end(v@, s as int),
                decreases v@.len() - e,
            {
                e += 1;
            }
            assert(skip_space(v@, s as int) == s);
            assert(word_end(v@, e as int) == e);
            let tok = vstd::slice::slice_subrange(v, s, e);
            let ghost before = out@.map_values(|t: &[u8]| t@);
            out.push(tok);
            assert(out@.map_values(|t: &[u8]| t@) =~= before.push(tok@));
            assert(tokens_from(v@, p as int) == seq![tok@] + tokens_from(v@, e as int));
            assert(before + (seq![tok@] + tokens_from(v@, e as int)) =~= before.push(tok@) + tokens_from(v@, e as int));
            p = e;
        }
    }

    /// Name and value of the attribute at position `i`.
    pub fn entry(&self, i: usize) -> (r: (&Bytes<'a>, Option<&Bytes<'a>>))
        requires
            i < self@.len(),
        ensures
            r.0@ == self@[i as int].0,
            match r.1 {
                Some(b) => self@[i as int].1 == Some(b@),
                None => self@[i as int].1 is None,
            },
    {
        let e = &self.entries[i];
        match &e.1 {
            Some(b) => (&e.0, Some(b)),
            None => (&e.0, None),
        }
    }
}

} // verus!
