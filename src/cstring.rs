//! An owned byte string with one nul terminator and no interior nul, for
//! handing strings across a foreign-call boundary.
use std::str::Utf8Error;
use vstd::prelude::*;
use vstd::utf8::decode_utf8;
use vstd::utf8::valid_utf8;

verus! {

#[verifier::external_type_specification]
#[verifier::external_body]
pub struct ExUtf8Error(std::str::Utf8Error);

/// Relies on the `Clone` of `Utf8Error`, a `Copy` type: the clone equals the
/// error it was made from.
pub assume_specification[ <std::str::Utf8Error as Clone>::clone ](
    e: &std::str::Utf8Error,
) -> (r: std::str::Utf8Error)
    ensures
        r == *e,
;

/// No byte of `s` is nul.
pub open spec fn has_no_nul(s: Seq<u8>) -> bool {
    forall|i: int| 0 <= i < s.len() ==> s[i] != 0
}

/// `i` is the position of the first nul byte of `s`.
pub open spec fn first_nul(s: Seq<u8>, i: int) -> bool {
    &&& 0 <= i < s.len()
    &&& s[i] == 0
    &&& has_no_nul(s.subrange(0, i))
}

/// `n` is the length of the longest prefix of `s` that is valid UTF-8.
pub open spec fn longest_valid_prefix(s: Seq<u8>, n: int) -> bool {
    &&& 0 <= n <= s.len()
    &&& valid_utf8(s.subrange(0, n))
    &&& forall|m: int| n < m <= s.len() ==> !valid_utf8(#[trigger] s.subrange(0, m))
}

/// Relies on String::from_utf8: the bytes become a string, holding the
/// characters they encode, exactly when they are valid UTF-8; otherwise the
/// bytes are handed back unchanged together with the UTF-8 error and its
/// `Utf8Error::valid_up_to`, the largest index up to which the bytes are
/// valid UTF-8.
#[verifier::external_body]
fn string_from_utf8(bytes: Vec<u8>) -> (r: Result<String, (Vec<u8>, Utf8Error, usize)>)
    ensures
        match r {
            Ok(s) => valid_utf8(bytes@) && s@ == decode_utf8(bytes@),
            Err((b, _, n)) => !valid_utf8(bytes@) && b@ == bytes@ && longest_valid_prefix(
                bytes@,
                n as int,
            ),
        },
{
    match String::from_utf8(bytes) {
        Ok(s) => Ok(s),
        Err(e) => {
            let error = e.utf8_error();
            let n = error.valid_up_to();
            Err((e.into_bytes(), error, n))
        },
    }
}

/// An owned string of bytes with no interior nul, stored with one trailing
/// nul byte. Its view is the bytes without the terminator.
#[derive(PartialEq, PartialOrd, Eq, Ord, Hash, Debug)]
pub struct CString {
    inner: Vec<u8>,
}

/// The bytes given to `CString::new` held a nul byte.
#[derive(Clone, PartialEq, Eq, Debug)]
pub struct NulError(usize, Vec<u8>);

/// The bytes of a `CString` were not valid UTF-8.
#[derive(Clone, PartialEq, Eq, Debug)]
pub struct IntoStringError {
    inner: CString,
    error: Utf8Error,
    valid_up_to: usize,
}

impl View for CString {
    type V = Seq<u8>;

    closed spec fn view(&self) -> Seq<u8> {
        self.inner@.drop_last()
    }
}

impl CString {
    #[verifier::type_invariant]
    spec fn terminated(self) -> bool {
        &&& self.inner@.len() >= 1
        &&& self.inner@.last() == 0
        &&& has_no_nul(self.inner@.drop_last())
    }

    /// The string of `bytes`, with a nul appended, for bytes known to hold no
    /// nul.
    pub fn from_vec_unchecked(bytes: Vec<u8>) -> (r: CString)
        requires
            has_no_nul(bytes@),
        ensures
            r@ == bytes@,
    {
        let mut v = bytes;
        v.push(0);
        assert(v@.drop_last() =~= bytes@);
        CString { inner: v }
    }

    /// The string of `bytes`, with a nul appended; refused, with the position
    /// of the first nul and the bytes themselves, when `bytes` holds a nul.
    pub fn new(bytes: Vec<u8>) -> (r: Result<CString, NulError>)
        ensures
            r is Ok <==> has_no_nul(bytes@),
            match r {
                Ok(c) => c@ == bytes@,
                Err(e) => first_nul(bytes@, e.spec_position() as int) && e.spec_bytes()
                    == bytes@,
            },
    {
        let mut i: usize = 0;
        while i < bytes.len()
            invariant
                i <= bytes@.len(),
                has_no_nul(bytes@.subrange(0, i as int)),
            decreases bytes@.len() - i,
        {
            if bytes[i] == 0 {
                return Err(NulError(i, bytes));
            }
            i += 1;
            assert(bytes@.subrange(0, i as int).drop_last() =~= bytes@.subrange(
                0,
                i as int - 1,
            ));
        }
        assert(bytes@.subrange(0, i as int) =~= bytes@);
        Ok(CString::from_vec_unchecked(bytes))
    }

    /// The bytes, without the terminator.
    pub fn into_bytes(self) -> (r: Vec<u8>)
        ensures
            r@ == self@,
            has_no_nul(r@),
    {
        proof {
            use_type_invariant(&self);
        }
        let mut v = self.inner;
        v.pop();
        v
    }

    /// The bytes, with the terminator.
    pub fn into_bytes_with_nul(self) -> (r: Vec<u8>)
        ensures
            r@ == self@.push(0),
    {
        proof {
            use_type_invariant(&self);
        }
        let v = self.inner;
        assert(v@ =~= v@.drop_last().push(0));
        v
    }

    /// The bytes, without the terminator.
    pub fn as_bytes(&self) -> (r: &[u8])
        ensures
            r@ == self@,
            has_no_nul(r@),
    {
        proof {
            use_type_invariant(self);
        }
        let n = self.inner.len();
        let (r, _) = self.inner.as_slice().split_at(n - 1);
        r
    }

    /// The bytes, with the terminator.
    pub fn as_bytes_with_nul(&self) -> (r: &[u8])
        ensures
            r@ == self@.push(0),
    {
        proof {
            use_type_invariant(self);
        }
        assert(self.inner@ =~= self.inner@.drop_last().push(0));
        self.inner.as_slice()
    }

    /// The characters the bytes encode, when they are valid UTF-8; otherwise
    /// the string comes back inside the error.
    pub fn into_string(self) -> (r: Result<String, IntoStringError>)
        ensures
            r is Ok <==> valid_utf8(self@),
            match r {
                Ok(s) => s@ == decode_utf8(self@),
                Err(e) => e.spec_cstring()@ == self@ && longest_valid_prefix(
                    self@,
                    e.spec_valid_up_to() as int,
                ),
            },
    {
        match string_from_utf8(self.into_bytes()) {
            Ok(s) => Ok(s),
            Err((bytes, error, valid_up_to)) => Err(
                IntoStringError { inner: CString::from_vec_unchecked(bytes), error, valid_up_to },
            ),
        }
    }
}

impl Clone for CString {
    /// A string with the same bytes.
    fn clone(&self) -> (r: CString)
        ensures
            r@ == self@,
    {
        proof {
            use_type_invariant(self);
        }
        let v = self.inner.clone();
        assert(v@ =~= self.inner@);
        CString { inner: v }
    }
}

impl Default for CString {
    /// The empty string.
    fn default() -> (r: CString)
        ensures
            r@ == Seq::<u8>::empty(),
    {
        let v: Vec<u8> = Vec::new();
        CString::from_vec_unchecked(v)
    }
}

impl NulError {
    pub closed spec fn spec_position(&self) -> usize {
        self.0
    }

    pub closed spec fn spec_bytes(&self) -> Seq<u8> {
        self.1@
    }

    /// The position of the first nul byte of the refused bytes.
    pub fn nul_position(&self) -> (r: usize)
        ensures
            r == self.spec_position(),
    {
        self.0
    }

    /// The refused bytes.
    pub fn into_vec(self) -> (r: Vec<u8>)
        ensures
            r@ == self.spec_bytes(),
    {
        self.1
    }
}

impl IntoStringError {
    pub closed spec fn spec_cstring(&self) -> CString {
        self.inner
    }

    pub closed spec fn spec_error(&self) -> Utf8Error {
        self.error
    }

    pub closed spec fn spec_valid_up_to(&self) -> usize {
        self.valid_up_to
    }

    /// The length of the longest prefix of the string's bytes that is valid
    /// UTF-8, as the UTF-8 error reports it.
    pub fn valid_up_to(&self) -> (r: usize)
        ensures
            r == self.spec_valid_up_to(),
    {
        self.valid_up_to
    }

    /// The string whose bytes were not valid UTF-8.
    pub fn into_cstring(self) -> (r: CString)
        ensures
            r == self.spec_cstring(),
    {
        self.inner
    }

    /// What was wrong with the bytes.
    pub fn utf8_error(&self) -> (r: Utf8Error)
        ensures
            r == self.spec_error(),
    {
        self.error
    }
}

} // verus!
