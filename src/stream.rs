use vstd::prelude::*;

verus! {

/// A forward cursor over a byte slice.
pub struct Stream<'a> {
    pub data: &'a [u8],
    pub idx: usize,
}

impl<'a> Stream<'a> {
    /// The cursor stays within the data.
    pub open spec fn wf(&self) -> bool {
        self.idx <= self.data@.len()
    }

    /// A cursor at the start of `data`.
    pub fn new(data: &'a [u8]) -> (r: Stream<'a>)
        ensures
            r.wf(),
            r.data == data,
            r.idx == 0,
    {
        Stream { data, idx: 0 }
    }

    /// Whether the cursor has reached the end.
    pub fn is_eof(&self) -> (r: bool)
        requires
            self.wf(),
        ensures
            r == (self.idx == self.data@.len()),
    {
        self.idx >= self.data.len()
    }

    /// The byte under the cursor, if any.
    pub fn current_cpy(&self) -> (r: Option<u8>)
        requires
            self.wf(),
        ensures
            self.idx < self.data@.len() ==> r == Some(self.data@[self.idx as int]),
            self.idx == self.data@.len() ==> r is None,
    {
        if self.idx < self.data.len() {
            Some(self.data[self.idx])
        } else {
            None
        }
    }

    /// Moves one byte forward, unless at the end.
    pub fn advance(&mut self)
        requires
            old(self).wf(),
        ensures
            final(self).wf(),
            final(self).data == old(self).data,
            final(self).idx == if old(self).idx < old(self).data@.len() {
                old(self).idx + 1
            } else {
                old(self).idx as int
            },
    {
        if self.idx < self.data.len() {
            self.idx += 1;
        }
    }

    /// The bytes from `start` to `end`.
    pub fn slice(&self, start: usize, end: usize) -> (r: &'a [u8])
        requires
            start <= end <= self.data@.len(),
        ensures
            r@ == self.data@.subrange(start as int, end as int),
    {
        vstd::slice::slice_subrange(self.data, start, end)
    }

    /// Moves past the current byte if it is `c`, returning it.
    pub fn expect_and_skip(&mut self, c: u8) -> (r: Option<u8>)
        requires
            old(self).wf(),
        ensures
            final(self).wf(),
            final(self).data == old(self).data,
            (old(self).idx < old(self).data@.len() && old(self).data@[old(self).idx as int] == c)
                ==> r == Some(c) && final(self).idx == old(self).idx + 1,
            !(old(self).idx < old(self).data@.len() && old(self).data@[old(self).idx as int] == c)
                ==> r is None && final(self).idx == old(self).idx,
    {
        if self.idx < self.data.len() && self.data[self.idx] == c {
            self.idx += 1;
            Some(c)
        } else {
            None
        }
    }

    /// Moves past the current byte if it is `c`, returning whether it did.
    pub fn expect_and_skip_cond(&mut self, c: u8) -> (r: bool)
        requires
            old(self).wf(),
        ensures
            final(self).wf(),
            final(self).data == old(self).data,
            r == (old(self).idx < old(self).data@.len() && old(self).data@[old(self).idx as int]
                == c),
            final(self).idx == if r {
                old(self).idx + 1
            } else {
                old(self).idx as int
            },
    {
        self.expect_and_skip(c).is_some()
    }

    /// Moves past the current byte if it is one of `set`, returning it.
    pub fn expect_oneof_and_skip(&mut self, set: &[u8]) -> (r: Option<u8>)
        requires
            old(self).wf(),
        ensures
            final(self).wf(),
            final(self).data == old(self).data,
            match r {
                Some(c) => old(self).idx < old(self).data@.len() && old(self).data@[old(
                    self,
                ).idx as int] == c && set@.contains(c) && final(self).idx == old(self).idx + 1,
                None => final(self).idx == old(self).idx && !(old(self).idx < old(self).data@.len()
                    && set@.contains(old(self).data@[old(self).idx as int])),
            },
    {
        if self.idx >= self.data.len() {
            return None;
        }
        let c = self.data[self.idx];
        let mut k: usize = 0;
        while k < set.len()
            invariant
                k <= set@.len(),
                self.idx < self.data.len(),
                c == self.data@[self.idx as int],
                *self == *old(self),
                forall|m: int| 0 <= m < k ==> set@[m] != c,
            decreases set@.len() - k,
        {
            if set[k] == c {
                self.idx += 1;
                assert(set@[k as int] == c);
                return Some(c);
            }
            k += 1;
        }
        None
    }
}

} // verus!
