//! Bounded wire types: byte buffers and strings with an enforced maximum
//! length. Every variable-length message field is one of these; construction
//! from raw bytes succeeds exactly when the length is within the maximum.

use vstd::prelude::*;
use crate::codec::{enc_bytes, CodecError};

verus! {

/// Maximum payload length of the 255-byte tier (one-byte length prefix).
pub const MAX_0255: u64 = 255;

/// Maximum payload length of the 32-byte tier (one-byte length prefix).
pub const MAX_032: u64 = 32;

/// Maximum payload length of the 64-kilobyte tier (two-byte length prefix).
pub const MAX_064K: u64 = 65535;

/// Maximum payload length of the 16-megabyte tier (three-byte length prefix).
pub const MAX_016M: u64 = 16777215;

/// Copies a byte buffer; the result owns its bytes.
pub fn copy_bytes(v: &Vec<u8>) -> (r: Vec<u8>)
    ensures
        r@ == v@,
{
    let mut out: Vec<u8> = Vec::new();
    let mut j: usize = 0;
    while j < v.len()
        invariant
            j <= v@.len(),
            out@ =~= v@.subrange(0, j as int),
        decreases v@.len() - j,
    {
        out.push(v[j]);
        j = j + 1;
    }
    proof {
        assert(out@ =~= v@);
    }
    out
}

/// A UTF-8-safe string of at most 255 bytes, encoded with a one-byte length
/// prefix.
#[derive(Clone, Debug, PartialEq, Eq)]
pub struct Str0255 {
    pub data: Vec<u8>,
}

impl View for Str0255 {
    type V = Seq<u8>;

    open spec fn view(&self) -> Seq<u8> {
        self.data@
    }
}

impl Str0255 {
    /// Length is within the declared maximum.
    pub open spec fn wf(&self) -> bool {
        self.data@.len() <= MAX_0255
    }

    /// Builds the bounded string iff the byte length is within the maximum;
    /// over-maximum input is a length violation, never a silent truncation.
    pub fn try_from_bytes(data: Vec<u8>) -> (r: Result<Self, CodecError>)
        ensures
            match r {
                Ok(s) => s@ == data@ && s.wf(),
                Err(e) => e == CodecError::LengthViolation && data@.len() > MAX_0255,
            },
    {
        if data.len() > 255 {
            Err(CodecError::LengthViolation)
        } else {
            Ok(Str0255 { data })
        }
    }

    pub fn len(&self) -> (r: usize)
        ensures
            r == self@.len(),
    {
        self.data.len()
    }
}

/// A byte buffer of at most 32 bytes, encoded with a one-byte length prefix.
#[derive(Clone, Debug, PartialEq, Eq)]
pub struct B032 {
    pub data: Vec<u8>,
}

impl View for B032 {
    type V = Seq<u8>;

    open spec fn view(&self) -> Seq<u8> {
        self.data@
    }
}

impl B032 {
    /// Length is within the declared maximum.
    pub open spec fn wf(&self) -> bool {
        self.data@.len() <= MAX_032
    }

    /// Builds the bounded buffer iff the byte length is within the maximum.
    pub fn try_from_bytes(data: Vec<u8>) -> (r: Result<Self, CodecError>)
        ensures
            match r {
                Ok(s) => s@ == data@ && s.wf(),
                Err(e) => e == CodecError::LengthViolation && data@.len() > MAX_032,
            },
    {
        if data.len() > 32 {
            Err(CodecError::LengthViolation)
        } else {
            Ok(B032 { data })
        }
    }

    pub fn len(&self) -> (r: usize)
        ensures
            r == self@.len(),
    {
        self.data.len()
    }
}

/// A byte buffer of at most 65535 bytes, encoded with a two-byte length
/// prefix.
#[derive(Clone, Debug, PartialEq, Eq)]
pub struct B064K {
    pub data: Vec<u8>,
}

impl View for B064K {
    type V = Seq<u8>;

    open spec fn view(&self) -> Seq<u8> {
        self.data@
    }
}

impl B064K {
    /// Length is within the declared maximum.
    pub open spec fn wf(&self) -> bool {
        self.data@.len() <= MAX_064K
    }

    /// Builds the bounded buffer iff the byte length is within the maximum.
    pub fn try_from_bytes(data: Vec<u8>) -> (r: Result<Self, CodecError>)
        ensures
            match r {
                Ok(s) => s@ == data@ && s.wf(),
                Err(e) => e == CodecError::LengthViolation && data@.len() > MAX_064K,
            },
    {
        if data.len() > 65535 {
            Err(CodecError::LengthViolation)
        } else {
            Ok(B064K { data })
        }
    }

    pub fn len(&self) -> (r: usize)
        ensures
            r == self@.len(),
    {
        self.data.len()
    }
}

/// A byte buffer of at most 16777215 bytes, encoded with a three-byte length
/// prefix.
#[derive(Clone, Debug, PartialEq, Eq)]
pub struct B016M {
    pub data: Vec<u8>,
}

impl View for B016M {
    type V = Seq<u8>;

    open spec fn view(&self) -> Seq<u8> {
        self.data@
    }
}

impl B016M {
    /// Length is within the declared maximum.
    pub open spec fn wf(&self) -> bool {
        self.data@.len() <= MAX_016M
    }

    /// Builds the bounded buffer iff the byte length is within the maximum.
    pub fn try_from_bytes(data: Vec<u8>) -> (r: Result<Self, CodecError>)
        ensures
            match r {
                Ok(s) => s@ == data@ && s.wf(),
                Err(e) => e == CodecError::LengthViolation && data@.len() > MAX_016M,
            },
    {
        if data.len() > 16777215 {
            Err(CodecError::LengthViolation)
        } else {
            Ok(B016M { data })
        }
    }

    pub fn len(&self) -> (r: usize)
        ensures
            r == self@.len(),
    {
        self.data.len()
    }
}

/// The byte sequences a list of bounded buffers holds, in order.
pub open spec fn views_of(elems: Seq<B016M>) -> Seq<Seq<u8>> {
    elems.map(|i: int, e: B016M| e@)
}

/// An ordered list of at most 65535 opaque transaction blobs, encoded as a
/// two-byte element count followed by the concatenated element encodings.
#[derive(Clone, Debug, PartialEq, Eq)]
pub struct Seq064K {
    pub elems: Vec<B016M>,
}

impl View for Seq064K {
    type V = Seq<Seq<u8>>;

    open spec fn view(&self) -> Seq<Seq<u8>> {
        views_of(self.elems@)
    }
}

/// Concatenated wire forms of a list of 16-megabyte-tier elements.
pub open spec fn enc_elems(s: Seq<Seq<u8>>) -> Seq<u8>
    decreases s.len(),
{
    if s.len() == 0 {
        Seq::empty()
    } else {
        enc_bytes(s[0], 3) + enc_elems(s.skip(1))
    }
}

impl Seq064K {
    /// Element count is within the maximum and every element is well formed.
    pub open spec fn wf(&self) -> bool {
        &&& self.elems@.len() <= MAX_064K
        &&& forall|i: int| 0 <= i < self.elems@.len() ==> (#[trigger] self.elems@[i]).wf()
    }

    /// Builds the bounded list iff the element count is within the maximum.
    pub fn try_from_elems(elems: Vec<B016M>) -> (r: Result<Self, CodecError>)
        ensures
            match r {
                Ok(s) => s.elems@ == elems@ && s.elems@.len() <= MAX_064K,
                Err(e) => e == CodecError::LengthViolation && elems@.len() > MAX_064K,
            },
    {
        if elems.len() > 65535 {
            Err(CodecError::LengthViolation)
        } else {
            Ok(Seq064K { elems })
        }
    }

    pub fn len(&self) -> (r: usize)
        ensures
            r == self@.len(),
    {
        self.elems.len()
    }
}

} // verus!
