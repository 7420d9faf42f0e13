//! Solution submission to the template provider: a successful solution for a
//! previously provided template, to be propagated to the network as soon as
//! it is received.

use vstd::prelude::*;
use crate::bounded::{B064K, MAX_064K};
use crate::codec::{
    le_enc, parse_bytes, parse_uint, read_bytes, read_uint, write_bytes, write_prefix, write_uint,
    CodecError,
};
use crate::codec::{
    lemma_le_enc_len, lemma_le_val_bound, lemma_parse_bytes_at, lemma_parse_bytes_take,
    lemma_parse_uint_at, lemma_parse_uint_take, lemma_pow256_values,
};

verus! {

/// A solution for a previously provided template. The receiving role must
/// construct the full block and propagate it immediately; no buffering or
/// reordering happens at this layer.
#[derive(Clone, Debug, PartialEq, Eq)]
pub struct SubmitSolution {
    /// Identifies the template to which this solution corresponds.
    pub template_id: u64,
    /// Version field in the block header.
    pub version: u32,
    /// nTime field in the block header.
    pub header_timestamp: u32,
    /// Nonce field in the header.
    pub header_nonce: u32,
    /// Full serialized coinbase transaction.
    pub coinbase_tx: B064K,
}

/// Mathematical model of [`SubmitSolution`].
#[verifier::ext_equal]
pub struct SubmitSolutionView {
    pub template_id: u64,
    pub version: u32,
    pub header_timestamp: u32,
    pub header_nonce: u32,
    pub coinbase_tx: Seq<u8>,
}

impl View for SubmitSolution {
    type V = SubmitSolutionView;

    open spec fn view(&self) -> SubmitSolutionView {
        SubmitSolutionView {
            template_id: self.template_id,
            version: self.version,
            header_timestamp: self.header_timestamp,
            header_nonce: self.header_nonce,
            coinbase_tx: self.coinbase_tx@,
        }
    }
}

impl SubmitSolutionView {
    /// The bounded field is within its maximum.
    pub open spec fn wf(self) -> bool {
        self.coinbase_tx.len() <= MAX_064K
    }

    /// Wire form: each field in declared order, the coinbase transaction with
    /// a two-byte length prefix.
    pub open spec fn encoded(self) -> Seq<u8> {
        le_enc(self.template_id as nat, 8) + le_enc(self.version as nat, 4) + le_enc(
            self.header_timestamp as nat,
            4,
        ) + le_enc(self.header_nonce as nat, 4) + le_enc(self.coinbase_tx.len(), 2)
            + self.coinbase_tx
    }
}

/// Parse of a [`SubmitSolution`] wire form; trailing bytes are left unread.
pub open spec fn parse_submit_solution(b: Seq<u8>) -> Result<(SubmitSolutionView, int), CodecError> {
    match parse_uint(b, 0, 8) {
        Err(e) => Err(e),
        Ok((tid, p1)) => match parse_uint(b, p1, 4) {
            Err(e) => Err(e),
            Ok((vr, p2)) => match parse_uint(b, p2, 4) {
                Err(e) => Err(e),
                Ok((ts, p3)) => match parse_uint(b, p3, 4) {
                    Err(e) => Err(e),
                    Ok((nn, p4)) => match parse_bytes(b, p4, 2, MAX_064K as int) {
                        Err(e) => Err(e),
                        Ok((cb, p5)) => Ok(
                            (
                                SubmitSolutionView {
                                    template_id: tid as u64,
                                    version: vr as u32,
                                    header_timestamp: ts as u32,
                                    header_nonce: nn as u32,
                                    coinbase_tx: cb,
                                },
                                p5,
                            ),
                        ),
                    },
                },
            },
        },
    }
}

impl SubmitSolution {
    /// The bounded field is within its maximum.
    pub open spec fn wf(self) -> bool {
        self@.wf()
    }

    /// Exact byte length of the wire form.
    pub fn get_size(&self) -> (r: usize)
        requires
            self.wf(),
        ensures
            r == self@.encoded().len(),
    {
        proof {
            lemma_submit_solution_sizes(self@);
        }
        22 + self.coinbase_tx.len()
    }

    /// Encodes the message: each field in declared order.
    pub fn encode(&self) -> (r: Vec<u8>)
        requires
            self.wf(),
        ensures
            r@ == self@.encoded(),
    {
        proof {
            lemma_pow256_values();
        }
        let mut out: Vec<u8> = Vec::new();
        write_uint(&mut out, self.template_id, 8);
        write_uint(&mut out, self.version as u64, 4);
        write_uint(&mut out, self.header_timestamp as u64, 4);
        write_uint(&mut out, self.header_nonce as u64, 4);
        write_bytes(&mut out, &self.coinbase_tx.data, 2);
        proof {
            assert(out@ =~= self@.encoded());
        }
        out
    }

    /// Writes the wire form over the start of a caller-preallocated buffer;
    /// fails, writing nothing, when the buffer is smaller than the encoding.
    pub fn encode_into(&self, out: &mut Vec<u8>) -> (r: Result<usize, CodecError>)
        requires
            self.wf(),
        ensures
            match r {
                Ok(n) => {
                    &&& n == self@.encoded().len()
                    &&& final(out)@.len() == old(out)@.len()
                    &&& final(out)@ == self@.encoded() + old(out)@.skip(n as int)
                },
                Err(e) => {
                    &&& e == CodecError::BufferTooSmall
                    &&& final(out)@ == old(out)@
                    &&& old(out)@.len() < self@.encoded().len()
                },
            },
    {
        let tmp = self.encode();
        write_prefix(out, &tmp)
    }

    /// Decodes a message from the start of `b`, exactly as
    /// [`parse_submit_solution`] describes.
    pub fn decode(b: &Vec<u8>) -> (r: Result<(SubmitSolution, usize), CodecError>)
        ensures
            match r {
                Ok(t) => {
                    &&& parse_submit_solution(b@) == Ok::<(SubmitSolutionView, int), CodecError>(
                        (t.0@, t.1 as int),
                    )
                    &&& t.0.wf()
                    &&& t.1 <= b@.len()
                },
                Err(e) => parse_submit_solution(b@) == Err::<(SubmitSolutionView, int), CodecError>(
                    e,
                ),
            },
    {
        let (tid, p1) = match read_uint(b, 0, 8) {
            Ok(t) => t,
            Err(e) => {
                return Err(e);
            },
        };
        let (vr, p2) = match read_uint(b, p1, 4) {
            Ok(t) => t,
            Err(e) => {
                return Err(e);
            },
        };
        let (ts, p3) = match read_uint(b, p2, 4) {
            Ok(t) => t,
            Err(e) => {
                return Err(e);
            },
        };
        let (nn, p4) = match read_uint(b, p3, 4) {
            Ok(t) => t,
            Err(e) => {
                return Err(e);
            },
        };
        let (cb, p5) = match read_bytes(b, p4, 2, 65535) {
            Ok(t) => t,
            Err(e) => {
                return Err(e);
            },
        };
        proof {
            lemma_le_val_bound(b@.subrange(0, p1 as int));
            lemma_le_val_bound(b@.subrange(p1 as int, p2 as int));
            lemma_le_val_bound(b@.subrange(p2 as int, p3 as int));
            lemma_le_val_bound(b@.subrange(p3 as int, p4 as int));
            lemma_pow256_values();
        }
        Ok(
            (
                SubmitSolution {
                    template_id: tid,
                    version: vr as u32,
                    header_timestamp: ts as u32,
                    header_nonce: nn as u32,
                    coinbase_tx: B064K { data: cb },
                },
                p5,
            ),
        )
    }
}

/// Field offsets and total length of the [`SubmitSolution`] wire form.
pub proof fn lemma_submit_solution_sizes(v: SubmitSolutionView)
    ensures
        v.encoded().len() == 22 + v.coinbase_tx.len(),
{
    lemma_le_enc_len(v.template_id as nat, 8);
    lemma_le_enc_len(v.version as nat, 4);
    lemma_le_enc_len(v.header_timestamp as nat, 4);
    lemma_le_enc_len(v.header_nonce as nat, 4);
    lemma_le_enc_len(v.coinbase_tx.len(), 2);
}

/// Round trip with forward compatibility for [`SubmitSolution`].
#[verifier::rlimit(30)]
pub proof fn lemma_submit_solution_round_trip(v: SubmitSolutionView, rest: Seq<u8>)
    requires
        v.wf(),
    ensures
        parse_submit_solution(v.encoded() + rest) == Ok::<(SubmitSolutionView, int), CodecError>(
            (v, v.encoded().len() as int),
        ),
{
    lemma_pow256_values();
    lemma_submit_solution_sizes(v);
    lemma_le_enc_len(v.template_id as nat, 8);
    lemma_le_enc_len(v.version as nat, 4);
    lemma_le_enc_len(v.header_timestamp as nat, 4);
    lemma_le_enc_len(v.header_nonce as nat, 4);
    lemma_le_enc_len(v.coinbase_tx.len(), 2);
    let b = v.encoded() + rest;
    let cb = v.coinbase_tx.len() as int;
    assert(b.subrange(0, 8) =~= le_enc(v.template_id as nat, 8));
    lemma_parse_uint_at(b, 0, 8, v.template_id as nat);
    assert(b.subrange(8, 12) =~= le_enc(v.version as nat, 4));
    lemma_parse_uint_at(b, 8, 4, v.version as nat);
    assert(b.subrange(12, 16) =~= le_enc(v.header_timestamp as nat, 4));
    lemma_parse_uint_at(b, 12, 4, v.header_timestamp as nat);
    assert(b.subrange(16, 20) =~= le_enc(v.header_nonce as nat, 4));
    lemma_parse_uint_at(b, 16, 4, v.header_nonce as nat);
    assert(b.subrange(20, 22) =~= le_enc(v.coinbase_tx.len(), 2));
    assert(b.subrange(22, 22 + cb) =~= v.coinbase_tx);
    lemma_parse_bytes_at(b, 20, 2, MAX_064K as int, v.coinbase_tx);
    assert(parse_submit_solution(b)->Ok_0.0 =~= v);
}

/// Truncation safety for [`SubmitSolution`].
#[verifier::rlimit(30)]
pub proof fn lemma_submit_solution_truncated(v: SubmitSolutionView, c: int)
    requires
        v.wf(),
        0 <= c < v.encoded().len(),
    ensures
        parse_submit_solution(v.encoded().take(c)) == Err::<(SubmitSolutionView, int), CodecError>(
            CodecError::TruncatedInput,
        ),
{
    lemma_pow256_values();
    lemma_submit_solution_sizes(v);
    lemma_submit_solution_round_trip(v, Seq::empty());
    let e = v.encoded();
    assert(e + Seq::<u8>::empty() =~= e);
    lemma_parse_uint_take(e, 0, 8, c);
    if c >= 8 {
        lemma_parse_uint_take(e, 8, 4, c);
    }
    if c >= 12 {
        lemma_parse_uint_take(e, 12, 4, c);
    }
    if c >= 16 {
        lemma_parse_uint_take(e, 16, 4, c);
    }
    if c >= 20 {
        lemma_parse_bytes_take(e, 20, 2, MAX_064K as int, c);
    }
}

/// Owning mirror of [`SubmitSolution`] for callers across an ABI boundary.
#[derive(Clone, Debug)]
pub struct CSubmitSolution {
    /// Identifies the template to which this solution corresponds.
    pub template_id: u64,
    /// Version field in the block header.
    pub version: u32,
    /// nTime field in the block header.
    pub header_timestamp: u32,
    /// Nonce field in the header.
    pub header_nonce: u32,
    /// Full serialized coinbase transaction.
    pub coinbase_tx: Vec<u8>,
}

impl CSubmitSolution {
    /// The mirror a message converts into.
    pub open spec fn spec_from_rust(m: SubmitSolution) -> CSubmitSolution {
        CSubmitSolution {
            template_id: m.template_id,
            version: m.version,
            header_timestamp: m.header_timestamp,
            header_nonce: m.header_nonce,
            coinbase_tx: m.coinbase_tx.data,
        }
    }

    /// The message a mirror converts back into: succeeds exactly when the
    /// owned block is within its bounded maximum.
    pub open spec fn spec_to_rust(self) -> Result<SubmitSolution, CodecError> {
        if self.coinbase_tx@.len() <= MAX_064K {
            Ok(
                SubmitSolution {
                    template_id: self.template_id,
                    version: self.version,
                    header_timestamp: self.header_timestamp,
                    header_nonce: self.header_nonce,
                    coinbase_tx: B064K { data: self.coinbase_tx },
                },
            )
        } else {
            Err(CodecError::LengthViolation)
        }
    }

    /// Convert the mirror into the library representation, checking the
    /// owned block against its bounded maximum.
    pub fn to_rust_rep_mut(self) -> (r: Result<SubmitSolution, CodecError>)
        ensures
            r == self.spec_to_rust(),
    {
        if self.coinbase_tx.len() > 65535 {
            return Err(CodecError::LengthViolation);
        }
        Ok(
            SubmitSolution {
                template_id: self.template_id,
                version: self.version,
                header_timestamp: self.header_timestamp,
                header_nonce: self.header_nonce,
                coinbase_tx: B064K { data: self.coinbase_tx },
            },
        )
    }

    /// Frees the owned block, leaving an empty block behind. Safe on a
    /// partially populated mirror, and releasing twice leaves the same empty
    /// state.
    pub fn release(&mut self)
        ensures
            final(self).template_id == old(self).template_id,
            final(self).version == old(self).version,
            final(self).header_timestamp == old(self).header_timestamp,
            final(self).header_nonce == old(self).header_nonce,
            final(self).coinbase_tx@.len() == 0,
    {
        self.coinbase_tx = Vec::new();
    }
}

impl From<SubmitSolution> for CSubmitSolution {
    /// Convert the library representation into the owning mirror.
    fn from(v: SubmitSolution) -> Self {
        CSubmitSolution {
            template_id: v.template_id,
            version: v.version,
            header_timestamp: v.header_timestamp,
            header_nonce: v.header_nonce,
            coinbase_tx: v.coinbase_tx.data,
        }
    }
}

impl vstd::std_specs::convert::FromSpecImpl<SubmitSolution> for CSubmitSolution {
    open spec fn obeys_from_spec() -> bool {
        true
    }

    open spec fn from_spec(v: SubmitSolution) -> CSubmitSolution {
        CSubmitSolution::spec_from_rust(v)
    }
}

/// Releases a [`CSubmitSolution`]: frees the owned block and consumes the
/// mirror, so a second release of the same instance cannot happen.
pub fn free_submit_solution(s: CSubmitSolution) {
    let mut s = s;
    s.release();
}

/// Foreign-representation safety: converting a well-formed message to its
/// owning mirror and back reproduces the original message.
pub proof fn lemma_submit_solution_foreign_round_trip(m: SubmitSolution)
    requires
        m.wf(),
    ensures
        CSubmitSolution::spec_from_rust(m).spec_to_rust() == Ok::<SubmitSolution, CodecError>(m),
{
}

} // verus!
