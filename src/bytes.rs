use vstd::prelude::*;

use vstd::string::StringSliceAdditionalSpecFns;
use vstd::utf8::{decode_utf8, encode_utf8, valid_utf8};

verus! {

/// What a lossy UTF-8 decoding of a byte string yields.
pub uninterp spec fn lossy_utf8(b: Seq<u8>) -> Seq<char>;

/// Relies on `String::from_utf8_lossy`: valid UTF-8 is decoded as it is, and any other input
/// gives a string that depends on its bytes alone.
#[verifier::external_body]
pub(crate) fn utf8_lossy_string(b: &[u8]) -> (r: String)
    ensures
        r@ == lossy_utf8(b@),
        valid_utf8(b@) ==> r@ == decode_utf8(b@),
{
    String::from_utf8_lossy(b).into_owned()
}

/// Relies on `std::str::from_utf8`: it succeeds exactly on valid UTF-8, and the string it
/// returns has the same bytes.
#[verifier::external_body]
fn utf8_str(b: &[u8]) -> (r: Option<&str>)
    ensures
        r is Some <==> valid_utf8(b@),
        r matches Some(s) ==> s.spec_bytes() == b@,
{
    std::str::from_utf8(b).ok()
}

/// Largest length a byte value may hold.
pub const MAX_LEN: usize = 4294967295;

/// Why replacing the contents of a byte value failed.
#[derive(Debug, Clone, Copy, PartialEq, Eq, Structural)]
pub enum SetBytesError {
    /// The new contents are longer than `u32::MAX` bytes.
    LengthOverflow,
}

#[derive(Debug)]
enum BytesInner<'a> {
    Borrowed(&'a [u8]),
    Owned(Vec<u8>),
}

/// A byte string that either borrows from the parsed input or owns its bytes.
#[derive(Debug)]
pub struct Bytes<'a> {
    data: BytesInner<'a>,
}

impl<'a> View for Bytes<'a> {
    type V = Seq<u8>;

    closed spec fn view(&self) -> Seq<u8> {
        match self.data {
            BytesInner::Borrowed(s) => s@,
            BytesInner::Owned(v) => v@,
        }
    }
}

/// A value that can be turned into an owned byte buffer.
pub trait IntoOwnedBytes {
    /// The bytes the value stands for.
    spec fn owned_bytes(&self) -> Seq<u8>;

    /// Turns the value into an owned buffer holding its bytes.
    fn into_bytes(self) -> (r: Vec<u8>)
        ensures
            r@ == self.owned_bytes(),
    ;
}

impl<'b> IntoOwnedBytes for &'b [u8] {
    open spec fn owned_bytes(&self) -> Seq<u8> {
        (*self)@
    }

    fn into_bytes(self) -> (r: Vec<u8>) {
        vstd::slice::slice_to_vec(self)
    }
}

impl<'b> IntoOwnedBytes for &'b str {
    open spec fn owned_bytes(&self) -> Seq<u8> {
        encode_utf8((*self)@)
    }

    fn into_bytes(self) -> (r: Vec<u8>) {
        vstd::slice::slice_to_vec(self.as_bytes())
    }
}

impl IntoOwnedBytes for Vec<u8> {
    open spec fn owned_bytes(&self) -> Seq<u8> {
        self@
    }

    fn into_bytes(self) -> (r: Vec<u8>) {
        self
    }
}

impl IntoOwnedBytes for Box<[u8]> {
    open spec fn owned_bytes(&self) -> Seq<u8> {
        (**self)@
    }

    fn into_bytes(self) -> (r: Vec<u8>) {
        self.into_vec()
    }
}

impl IntoOwnedBytes for String {
    open spec fn owned_bytes(&self) -> Seq<u8> {
        encode_utf8(self@)
    }

    fn into_bytes(self) -> (r: Vec<u8>) {
        vstd::slice::slice_to_vec(self.as_str().as_bytes())
    }
}

impl<'a> Bytes<'a> {
    /// Whether the value borrows its bytes rather than owning them.
    pub closed spec fn is_borrowed(&self) -> bool {
        self.data is Borrowed
    }

    /// An empty, borrowed byte value.
    pub fn new() -> (r: Bytes<'a>)
        ensures
            r@ == Seq::<u8>::empty(),
            r.is_borrowed(),
    {
        let e: &'a [u8] = &[];
        Bytes { data: BytesInner::Borrowed(e) }
    }

    /// A value that borrows `s`.
    pub fn from_slice(s: &'a [u8]) -> (r: Bytes<'a>)
        ensures
            r@ == s@,
            r.is_borrowed(),
    {
        Bytes { data: BytesInner::Borrowed(s) }
    }

    /// A value that owns `v`.
    pub fn from_vec(v: Vec<u8>) -> (r: Bytes<'a>)
        ensures
            r@ == v@,
            !r.is_borrowed(),
    {
        Bytes { data: BytesInner::Owned(v) }
    }

    /// The bytes, whichever way they are held.
    pub fn as_bytes(&self) -> (r: &[u8])
        ensures
            r@ == self@,
    {
        match &self.data {
            BytesInner::Borrowed(s) => s,
            BytesInner::Owned(v) => v.as_slice(),
        }
    }

    /// The borrowed slice, if the value borrows.
    pub fn as_bytes_borrowed(&self) -> (r: Option<&'a [u8]>)
        ensures
            r is Some <==> self.is_borrowed(),
            r matches Some(s) ==> s@ == self@,
    {
        match &self.data {
            BytesInner::Borrowed(s) => Some(*s),
            BytesInner::Owned(_) => None,
        }
    }

    /// Number of bytes.
    pub fn len(&self) -> (r: usize)
        ensures
            r == self@.len(),
    {
        self.as_bytes().len()
    }

    /// Replaces the contents with an owned copy of `data`; fails, leaving the value as it
    /// was, where `data` is longer than `u32::MAX` bytes.
    pub fn set<B: IntoOwnedBytes>(&mut self, data: B) -> (r: Result<(), SetBytesError>)
        ensures
            r is Ok <==> data.owned_bytes().len() <= MAX_LEN,
            r is Ok ==> final(self)@ == data.owned_bytes() && !final(self).is_borrowed(),
            r is Err ==> final(self)@ == old(self)@ && final(self).is_borrowed() == old(
                self,
            ).is_borrowed(),
    {
        let v = data.into_bytes();
        if v.len() > MAX_LEN {
            return Err(SetBytesError::LengthOverflow);
        }
        self.data = BytesInner::Owned(v);
        Ok(())
    }

    /// The bytes as a string, with invalid UTF-8 sequences replaced.
    pub fn as_utf8_str(&self) -> (r: String)
        ensures
            r@ == lossy_utf8(self@),
            valid_utf8(self@) ==> r@ == decode_utf8(self@),
    {
        utf8_lossy_string(self.as_bytes())
    }

    /// The bytes as a string slice, if they are valid UTF-8.
    pub fn try_as_utf8_str(&self) -> (r: Option<&str>)
        ensures
            r is Some <==> valid_utf8(self@),
            r matches Some(s) ==> s.spec_bytes() == self@,
    {
        utf8_str(self.as_bytes())
    }

    /// A copy of the value: an owned value is copied deeply, a borrowed one shares its slice.
    pub fn clone_bytes(&self) -> (r: Bytes<'a>)
        ensures
            r@ == self@,
            r.is_borrowed() == self.is_borrowed(),
    {
        match &self.data {
            BytesInner::Borrowed(s) => Bytes { data: BytesInner::Borrowed(*s) },
            BytesInner::Owned(v) => Bytes { data: BytesInner::Owned(vstd::slice::slice_to_vec(v.as_slice())) },
        }
    }
}

impl<'a> Clone for Bytes<'a> {
    fn clone(&self) -> (r: Bytes<'a>)
        ensures
            r@ == self@,
    {
        self.clone_bytes()
    }
}

impl<'a> PartialEq for Bytes<'a> {
    fn eq(&self, o: &Bytes<'a>) -> (r: bool) {
        crate::util::bytes_eq(self.as_bytes(), o.as_bytes())
    }
}

impl<'a> vstd::std_specs::cmp::PartialEqSpecImpl for Bytes<'a> {
    open spec fn obeys_eq_spec() -> bool {
        true
    }

    open spec fn eq_spec(&self, o: &Bytes<'a>) -> bool {
        self@ == o@
    }
}

impl<'a> PartialEq<str> for Bytes<'a> {
    fn eq(&self, o: &str) -> (r: bool) {
        crate::util::bytes_eq(self.as_bytes(), o.as_bytes())
    }
}

impl<'a> vstd::std_specs::cmp::PartialEqSpecImpl<str> for Bytes<'a> {
    open spec fn obeys_eq_spec() -> bool {
        true
    }

    open spec fn eq_spec(&self, o: &str) -> bool {
        self@ == o.spec_bytes()
    }
}

/// Borrows the bytes of `s`; see `Bytes::from_slice` for the contract.
impl<'a> From<&'a str> for Bytes<'a> {
    fn from(s: &'a str) -> (r: Bytes<'a>) {
        Bytes::from_slice(s.as_bytes())
    }
}

impl<'a> vstd::std_specs::convert::FromSpecImpl<&'a str> for Bytes<'a> {
    open spec fn obeys_from_spec() -> bool {
        false
    }

    closed spec fn from_spec(s: &'a str) -> Bytes<'a> {
        choose|b: Bytes<'a>| b@ == encode_utf8(s@) && b.is_borrowed()
    }
}

/// Borrows `s`; see `Bytes::from_slice` for the contract.
impl<'a> From<&'a [u8]> for Bytes<'a> {
    fn from(s: &'a [u8]) -> (r: Bytes<'a>) {
        Bytes::from_slice(s)
    }
}

impl<'a> vstd::std_specs::convert::FromSpecImpl<&'a [u8]> for Bytes<'a> {
    open spec fn obeys_from_spec() -> bool {
        false
    }

    closed spec fn from_spec(s: &'a [u8]) -> Bytes<'a> {
        choose|b: Bytes<'a>| b@ == s@ && b.is_borrowed()
    }
}

/// Takes ownership of `v`.
impl<'a> From<Vec<u8>> for Bytes<'a> {
    fn from(v: Vec<u8>) -> (r: Bytes<'a>) {
        Bytes { data: BytesInner::Owned(v) }
    }
}

impl<'a> vstd::std_specs::convert::FromSpecImpl<Vec<u8>> for Bytes<'a> {
    open spec fn obeys_from_spec() -> bool {
        true
    }

    closed spec fn from_spec(v: Vec<u8>) -> Bytes<'a> {
        Bytes { data: BytesInner::Owned(v) }
    }
}

/// Takes ownership of the bytes of `s`.
impl<'a> From<String> for Bytes<'a> {
    fn from(s: String) -> (r: Bytes<'a>) {
        Bytes::from_vec(<String as IntoOwnedBytes>::into_bytes(s))
    }
}

impl<'a> vstd::std_specs::convert::FromSpecImpl<String> for Bytes<'a> {
    open spec fn obeys_from_spec() -> bool {
        false
    }

    closed spec fn from_spec(s: String) -> Bytes<'a> {
        choose|b: Bytes<'a>| b@ == encode_utf8(s@) && !b.is_borrowed()
    }
}

} // verus!
