//! Share submission and its acknowledgment: the downstream's hashing results,
//! the upstream's cumulative batch acceptance, and rejection with a closed
//! set of error codes.

use vstd::prelude::*;
use crate::bounded::{copy_bytes, Str0255, B032, MAX_0255, MAX_032};
use crate::codec::{
    le_enc, parse_bytes, parse_uint, read_bytes, read_uint, write_bytes, write_prefix, write_uint,
    CodecError,
};
use crate::codec::{
    lemma_le_enc_len, lemma_le_val_bound, lemma_parse_bytes_at, lemma_parse_bytes_take,
    lemma_parse_uint_at, lemma_parse_uint_take, lemma_pow256_values,
};

verus! {

/// A downstream's hashing result on a standard channel.
///
/// The codec carries the timestamp, nonce and version untouched; window and
/// correctness checks are the consumer's, made against externally tracked
/// state.
#[derive(Clone, Copy, Debug, PartialEq, Eq, Structural)]
pub struct SubmitSharesStandard {
    /// Channel identification.
    pub channel_id: u32,
    /// Unique sequential identifier of the submit within the channel.
    pub sequence_number: u32,
    /// Identifier of the job the share was found for.
    pub job_id: u32,
    /// Nonce leading to the hash being submitted.
    pub nonce: u32,
    /// The `nTime` field in the block header.
    pub ntime: u32,
    /// Full `nVersion` field.
    pub version: u32,
}

/// Parse of a [`SubmitSharesStandard`] wire form; trailing bytes are left
/// unread.
pub open spec fn parse_submit_shares_standard(b: Seq<u8>) -> Result<
    (SubmitSharesStandard, int),
    CodecError,
> {
    match parse_uint(b, 0, 4) {
        Err(e) => Err(e),
        Ok((ch, p1)) => match parse_uint(b, p1, 4) {
            Err(e) => Err(e),
            Ok((sq, p2)) => match parse_uint(b, p2, 4) {
                Err(e) => Err(e),
                Ok((jb, p3)) => match parse_uint(b, p3, 4) {
                    Err(e) => Err(e),
                    Ok((nn, p4)) => match parse_uint(b, p4, 4) {
                        Err(e) => Err(e),
                        Ok((nt, p5)) => match parse_uint(b, p5, 4) {
                            Err(e) => Err(e),
                            Ok((vr, p6)) => Ok(
                                (
                                    SubmitSharesStandard {
                                        channel_id: ch as u32,
                                        sequence_number: sq as u32,
                                        job_id: jb as u32,
                                        nonce: nn as u32,
                                        ntime: nt as u32,
                                        version: vr as u32,
                                    },
                                    p6,
                                ),
                            ),
                        },
                    },
                },
            },
        },
    }
}

impl SubmitSharesStandard {
    /// Wire form: each field in declared order.
    pub open spec fn encoded(self) -> Seq<u8> {
        le_enc(self.channel_id as nat, 4) + le_enc(self.sequence_number as nat, 4) + le_enc(
            self.job_id as nat,
            4,
        ) + le_enc(self.nonce as nat, 4) + le_enc(self.ntime as nat, 4) + le_enc(
            self.version as nat,
            4,
        )
    }

    /// Exact byte length of the wire form.
    pub fn get_size(&self) -> (r: usize)
        ensures
            r == self.encoded().len(),
    {
        proof {
            lemma_submit_shares_standard_sizes(*self);
        }
        24
    }

    /// Encodes the message: each field in declared order.
    pub fn encode(&self) -> (r: Vec<u8>)
        ensures
            r@ == self.encoded(),
    {
        proof {
            lemma_pow256_values();
        }
        let mut out: Vec<u8> = Vec::new();
        write_uint(&mut out, self.channel_id as u64, 4);
        write_uint(&mut out, self.sequence_number as u64, 4);
        write_uint(&mut out, self.job_id as u64, 4);
        write_uint(&mut out, self.nonce as u64, 4);
        write_uint(&mut out, self.ntime as u64, 4);
        write_uint(&mut out, self.version as u64, 4);
        proof {
            assert(out@ =~= self.encoded());
        }
        out
    }

    /// Writes the wire form over the start of a caller-preallocated buffer;
    /// fails, writing nothing, when the buffer is smaller than the encoding.
    pub fn encode_into(&self, out: &mut Vec<u8>) -> (r: Result<usize, CodecError>)
        ensures
            match r {
                Ok(n) => {
                    &&& n == self.encoded().len()
                    &&& final(out)@.len() == old(out)@.len()
                    &&& final(out)@ == self.encoded() + old(out)@.skip(n as int)
                },
                Err(e) => {
                    &&& e == CodecError::BufferTooSmall
                    &&& final(out)@ == old(out)@
                    &&& old(out)@.len() < self.encoded().len()
                },
            },
    {
        let tmp = self.encode();
        write_prefix(out, &tmp)
    }

    /// Decodes a message from the start of `b`, exactly as
    /// [`parse_submit_shares_standard`] describes.
    pub fn decode(b: &Vec<u8>) -> (r: Result<(SubmitSharesStandard, usize), CodecError>)
        ensures
            match r {
                Ok(t) => {
                    &&& parse_submit_shares_standard(b@) == Ok::<
                        (SubmitSharesStandard, int),
                        CodecError,
                    >((t.0, t.1 as int))
                    &&& t.1 <= b@.len()
                },
                Err(e) => parse_submit_shares_standard(b@) == Err::<
                    (SubmitSharesStandard, int),
                    CodecError,
                >(e),
            },
    {
        let (ch, p1) = match read_uint(b, 0, 4) {
            Ok(t) => t,
            Err(e) => {
                return Err(e);
            },
        };
        let (sq, p2) = match read_uint(b, p1, 4) {
            Ok(t) => t,
            Err(e) => {
                return Err(e);
            },
        };
        let (jb, p3) = match read_uint(b, p2, 4) {
            Ok(t) => t,
            Err(e) => {
                return Err(e);
            },
        };
        let (nn, p4) = match read_uint(b, p3, 4) {
            Ok(t) => t,
            Err(e) => {
                return Err(e);
            },
        };
        let (nt, p5) = match read_uint(b, p4, 4) {
            Ok(t) => t,
            Err(e) => {
                return Err(e);
            },
        };
        let (vr, p6) = match read_uint(b, p5, 4) {
            Ok(t) => t,
            Err(e) => {
                return Err(e);
            },
        };
        proof {
            lemma_le_val_bound(b@.subrange(0, p1 as int));
            lemma_le_val_bound(b@.subrange(p1 as int, p2 as int));
            lemma_le_val_bound(b@.subrange(p2 as int, p3 as int));
            lemma_le_val_bound(b@.subrange(p3 as int, p4 as int));
            lemma_le_val_bound(b@.subrange(p4 as int, p5 as int));
            lemma_le_val_bound(b@.subrange(p5 as int, p6 as int));
            lemma_pow256_values();
        }
        Ok(
            (
                SubmitSharesStandard {
                    channel_id: ch as u32,
                    sequence_number: sq as u32,
                    job_id: jb as u32,
                    nonce: nn as u32,
                    ntime: nt as u32,
                    version: vr as u32,
                },
                p6,
            ),
        )
    }
}

/// Field offsets and total length of the [`SubmitSharesStandard`] wire form.
pub proof fn lemma_submit_shares_standard_sizes(m: SubmitSharesStandard)
    ensures
        m.encoded().len() == 24,
{
    lemma_le_enc_len(m.channel_id as nat, 4);
    lemma_le_enc_len(m.sequence_number as nat, 4);
    lemma_le_enc_len(m.job_id as nat, 4);
    lemma_le_enc_len(m.nonce as nat, 4);
    lemma_le_enc_len(m.ntime as nat, 4);
    lemma_le_enc_len(m.version as nat, 4);
}

/// Round trip with forward compatibility for [`SubmitSharesStandard`].
pub proof fn lemma_submit_shares_standard_round_trip(m: SubmitSharesStandard, rest: Seq<u8>)
    ensures
        parse_submit_shares_standard(m.encoded() + rest) == Ok::<
            (SubmitSharesStandard, int),
            CodecError,
        >((m, m.encoded().len() as int)),
{
    lemma_pow256_values();
    lemma_submit_shares_standard_sizes(m);
    lemma_le_enc_len(m.channel_id as nat, 4);
    lemma_le_enc_len(m.sequence_number as nat, 4);
    lemma_le_enc_len(m.job_id as nat, 4);
    lemma_le_enc_len(m.nonce as nat, 4);
    lemma_le_enc_len(m.ntime as nat, 4);
    lemma_le_enc_len(m.version as nat, 4);
    let b = m.encoded() + rest;
    assert(b.subrange(0, 4) =~= le_enc(m.channel_id as nat, 4));
    lemma_parse_uint_at(b, 0, 4, m.channel_id as nat);
    assert(b.subrange(4, 8) =~= le_enc(m.sequence_number as nat, 4));
    lemma_parse_uint_at(b, 4, 4, m.sequence_number as nat);
    assert(b.subrange(8, 12) =~= le_enc(m.job_id as nat, 4));
    lemma_parse_uint_at(b, 8, 4, m.job_id as nat);
    assert(b.subrange(12, 16) =~= le_enc(m.nonce as nat, 4));
    lemma_parse_uint_at(b, 12, 4, m.nonce as nat);
    assert(b.subrange(16, 20) =~= le_enc(m.ntime as nat, 4));
    lemma_parse_uint_at(b, 16, 4, m.ntime as nat);
    assert(b.subrange(20, 24) =~= le_enc(m.version as nat, 4));
    lemma_parse_uint_at(b, 20, 4, m.version as nat);
}

/// Truncation safety for [`SubmitSharesStandard`].
pub proof fn lemma_submit_shares_standard_truncated(m: SubmitSharesStandard, c: int)
    requires
        0 <= c < m.encoded().len(),
    ensures
        parse_submit_shares_standard(m.encoded().take(c)) == Err::<
            (SubmitSharesStandard, int),
            CodecError,
        >(CodecError::TruncatedInput),
{
    lemma_pow256_values();
    lemma_submit_shares_standard_sizes(m);
    lemma_submit_shares_standard_round_trip(m, Seq::empty());
    let e = m.encoded();
    assert(e + Seq::<u8>::empty() =~= e);
    lemma_parse_uint_take(e, 0, 4, c);
    if c >= 4 {
        lemma_parse_uint_take(e, 4, 4, c);
    }
    if c >= 8 {
        lemma_parse_uint_take(e, 8, 4, c);
    }
    if c >= 12 {
        lemma_parse_uint_take(e, 12, 4, c);
    }
    if c >= 16 {
        lemma_parse_uint_take(e, 16, 4, c);
    }
    if c >= 20 {
        lemma_parse_uint_take(e, 20, 4, c);
    }
}

/// A downstream's hashing result on an extended channel: the standard fields
/// plus the extra-nonce blob.
///
/// The extra-nonce length must equal the size negotiated at channel opening;
/// that check belongs to the consumer, which holds the negotiated state, not
/// to the codec.
#[derive(Clone, Debug, PartialEq, Eq)]
pub struct SubmitSharesExtended {
    /// Channel identification.
    pub channel_id: u32,
    /// Unique sequential identifier of the submit within the channel.
    pub sequence_number: u32,
    /// Identifier of the job the share was found for.
    pub job_id: u32,
    /// Nonce leading to the hash being submitted.
    pub nonce: u32,
    /// The `nTime` field in the block header.
    pub ntime: u32,
    /// Full `nVersion` field.
    pub version: u32,
    /// Extranonce bytes which need to be added to the coinbase transaction to
    /// form a fully valid submission.
    pub extranonce: B032,
}

/// Mathematical model of [`SubmitSharesExtended`].
#[verifier::ext_equal]
pub struct SubmitSharesExtendedView {
    pub channel_id: u32,
    pub sequence_number: u32,
    pub job_id: u32,
    pub nonce: u32,
    pub ntime: u32,
    pub version: u32,
    pub extranonce: Seq<u8>,
}

impl View for SubmitSharesExtended {
    type V = SubmitSharesExtendedView;

    open spec fn view(&self) -> SubmitSharesExtendedView {
        SubmitSharesExtendedView {
            channel_id: self.channel_id,
            sequence_number: self.sequence_number,
            job_id: self.job_id,
            nonce: self.nonce,
            ntime: self.ntime,
            version: self.version,
            extranonce: self.extranonce@,
        }
    }
}

impl SubmitSharesExtendedView {
    /// The bounded field is within its maximum.
    pub open spec fn wf(self) -> bool {
        self.extranonce.len() <= MAX_032
    }

    /// Wire form: the standard fields, then the length-prefixed extranonce.
    pub open spec fn encoded(self) -> Seq<u8> {
        le_enc(self.channel_id as nat, 4) + le_enc(self.sequence_number as nat, 4) + le_enc(
            self.job_id as nat,
            4,
        ) + le_enc(self.nonce as nat, 4) + le_enc(self.ntime as nat, 4) + le_enc(
            self.version as nat,
            4,
        ) + le_enc(self.extranonce.len(), 1) + self.extranonce
    }
}

/// Parse of a [`SubmitSharesExtended`] wire form; an extranonce longer than
/// its 32-byte maximum is a length violation, and trailing bytes are left
/// unread.
pub open spec fn parse_submit_shares_extended(b: Seq<u8>) -> Result<
    (SubmitSharesExtendedView, int),
    CodecError,
> {
    match parse_uint(b, 0, 4) {
        Err(e) => Err(e),
        Ok((ch, p1)) => match parse_uint(b, p1, 4) {
            Err(e) => Err(e),
            Ok((sq, p2)) => match parse_uint(b, p2, 4) {
                Err(e) => Err(e),
                Ok((jb, p3)) => match parse_uint(b, p3, 4) {
                    Err(e) => Err(e),
                    Ok((nn, p4)) => match parse_uint(b, p4, 4) {
                        Err(e) => Err(e),
                        Ok((nt, p5)) => match parse_uint(b, p5, 4) {
                            Err(e) => Err(e),
                            Ok((vr, p6)) => match parse_bytes(b, p6, 1, MAX_032 as int) {
                                Err(e) => Err(e),
                                Ok((xn, p7)) => Ok(
                                    (
                                        SubmitSharesExtendedView {
                                            channel_id: ch as u32,
                                            sequence_number: sq as u32,
                                            job_id: jb as u32,
                                            nonce: nn as u32,
                                            ntime: nt as u32,
                                            version: vr as u32,
                                            extranonce: xn,
                                        },
                                        p7,
                                    ),
                                ),
                            },
                        },
                    },
                },
            },
        },
    }
}

impl SubmitSharesExtended {
    /// The bounded field is within its maximum.
    pub open spec fn wf(self) -> bool {
        self@.wf()
    }

    /// Exact byte length of the wire form.
    pub fn get_size(&self) -> (r: usize)
        requires
            self.wf(),
        ensures
            r == self@.encoded().len(),
    {
        proof {
            lemma_submit_shares_extended_sizes(self@);
        }
        25 + self.extranonce.len()
    }

    /// Encodes the message: each field in declared order.
    pub fn encode(&self) -> (r: Vec<u8>)
        requires
            self.wf(),
        ensures
            r@ == self@.encoded(),
    {
        proof {
            lemma_pow256_values();
        }
        let mut out: Vec<u8> = Vec::new();
        write_uint(&mut out, self.channel_id as u64, 4);
        write_uint(&mut out, self.sequence_number as u64, 4);
        write_uint(&mut out, self.job_id as u64, 4);
        write_uint(&mut out, self.nonce as u64, 4);
        write_uint(&mut out, self.ntime as u64, 4);
        write_uint(&mut out, self.version as u64, 4);
        write_bytes(&mut out, &self.extranonce.data, 1);
        proof {
            assert(out@ =~= self@.encoded());
        }
        out
    }

    /// Writes the wire form over the start of a caller-preallocated buffer;
    /// fails, writing nothing, when the buffer is smaller than the encoding.
    pub fn encode_into(&self, out: &mut Vec<u8>) -> (r: Result<usize, CodecError>)
        requires
            self.wf(),
        ensures
            match r {
                Ok(n) => {
                    &&& n == self@.encoded().len()
                    &&& final(out)@.len() == old(out)@.len()
                    &&& final(out)@ == self@.encoded() + old(out)@.skip(n as int)
                },
                Err(e) => {
                    &&& e == CodecError::BufferTooSmall
                    &&& final(out)@ == old(out)@
                    &&& old(out)@.len() < self@.encoded().len()
                },
            },
    {
        let tmp = self.encode();
        write_prefix(out, &tmp)
    }

    /// Decodes a message from the start of `b`, exactly as
    /// [`parse_submit_shares_extended`] describes.
    pub fn decode(b: &Vec<u8>) -> (r: Result<(SubmitSharesExtended, usize), CodecError>)
        ensures
            match r {
                Ok(t) => {
                    &&& parse_submit_shares_extended(b@) == Ok::<
                        (SubmitSharesExtendedView, int),
                        CodecError,
                    >((t.0@, t.1 as int))
                    &&& t.0.wf()
                    &&& t.1 <= b@.len()
                },
                Err(e) => parse_submit_shares_extended(b@) == Err::<
                    (SubmitSharesExtendedView, int),
                    CodecError,
                >(e),
            },
    {
        let (ch, p1) = match read_uint(b, 0, 4) {
            Ok(t) => t,
            Err(e) => {
                return Err(e);
            },
        };
        let (sq, p2) = match read_uint(b, p1, 4) {
            Ok(t) => t,
            Err(e) => {
                return Err(e);
            },
        };
        let (jb, p3) = match read_uint(b, p2, 4) {
            Ok(t) => t,
            Err(e) => {
                return Err(e);
            },
        };
        let (nn, p4) = match read_uint(b, p3, 4) {
            Ok(t) => t,
            Err(e) => {
                return Err(e);
            },
        };
        let (nt, p5) = match read_uint(b, p4, 4) {
            Ok(t) => t,
            Err(e) => {
                return Err(e);
            },
        };
        let (vr, p6) = match read_uint(b, p5, 4) {
            Ok(t) => t,
            Err(e) => {
                return Err(e);
            },
        };
        let (xn, p7) = match read_bytes(b, p6, 1, 32) {
            Ok(t) => t,
            Err(e) => {
                return Err(e);
            },
        };
        proof {
            lemma_le_val_bound(b@.subrange(0, p1 as int));
            lemma_le_val_bound(b@.subrange(p1 as int, p2 as int));
            lemma_le_val_bound(b@.subrange(p2 as int, p3 as int));
            lemma_le_val_bound(b@.subrange(p3 as int, p4 as int));
            lemma_le_val_bound(b@.subrange(p4 as int, p5 as int));
            lemma_le_val_bound(b@.subrange(p5 as int, p6 as int));
            lemma_pow256_values();
        }
        Ok(
            (
                SubmitSharesExtended {
                    channel_id: ch as u32,
                    sequence_number: sq as u32,
                    job_id: jb as u32,
                    nonce: nn as u32,
                    ntime: nt as u32,
                    version: vr as u32,
                    extranonce: B032 { data: xn },
                },
                p7,
            ),
        )
    }

    /// An owning copy that no longer shares storage with anything; the
    /// message already owns its bytes, so this reproduces every field.
    pub fn into_static(self) -> (r: SubmitSharesExtended)
        ensures
            r@ == self@,
    {
        self
    }

    /// An owning copy of a borrowed message, field for field.
    pub fn as_static(&self) -> (r: SubmitSharesExtended)
        ensures
            r@ == self@,
    {
        SubmitSharesExtended {
            channel_id: self.channel_id,
            sequence_number: self.sequence_number,
            job_id: self.job_id,
            nonce: self.nonce,
            ntime: self.ntime,
            version: self.version,
            extranonce: B032 { data: copy_bytes(&self.extranonce.data) },
        }
    }
}

/// Field offsets and total length of the [`SubmitSharesExtended`] wire form.
pub proof fn lemma_submit_shares_extended_sizes(v: SubmitSharesExtendedView)
    ensures
        v.encoded().len() == 25 + v.extranonce.len(),
{
    lemma_le_enc_len(v.channel_id as nat, 4);
    lemma_le_enc_len(v.sequence_number as nat, 4);
    lemma_le_enc_len(v.job_id as nat, 4);
    lemma_le_enc_len(v.nonce as nat, 4);
    lemma_le_enc_len(v.ntime as nat, 4);
    lemma_le_enc_len(v.version as nat, 4);
    lemma_le_enc_len(v.extranonce.len(), 1);
}

/// Round trip with forward compatibility for [`SubmitSharesExtended`].
#[verifier::rlimit(30)]
pub proof fn lemma_submit_shares_extended_round_trip(v: SubmitSharesExtendedView, rest: Seq<u8>)
    requires
        v.wf(),
    ensures
        parse_submit_shares_extended(v.encoded() + rest) == Ok::<
            (SubmitSharesExtendedView, int),
            CodecError,
        >((v, v.encoded().len() as int)),
{
    lemma_pow256_values();
    lemma_submit_shares_extended_sizes(v);
    lemma_le_enc_len(v.channel_id as nat, 4);
    lemma_le_enc_len(v.sequence_number as nat, 4);
    lemma_le_enc_len(v.job_id as nat, 4);
    lemma_le_enc_len(v.nonce as nat, 4);
    lemma_le_enc_len(v.ntime as nat, 4);
    lemma_le_enc_len(v.version as nat, 4);
    lemma_le_enc_len(v.extranonce.len(), 1);
    let b = v.encoded() + rest;
    let xn = v.extranonce.len() as int;
    assert(b.subrange(0, 4) =~= le_enc(v.channel_id as nat, 4));
    lemma_parse_uint_at(b, 0, 4, v.channel_id as nat);
    assert(b.subrange(4, 8) =~= le_enc(v.sequence_number as nat, 4));
    lemma_parse_uint_at(b, 4, 4, v.sequence_number as nat);
    assert(b.subrange(8, 12) =~= le_enc(v.job_id as nat, 4));
    lemma_parse_uint_at(b, 8, 4, v.job_id as nat);
    assert(b.subrange(12, 16) =~= le_enc(v.nonce as nat, 4));
    lemma_parse_uint_at(b, 12, 4, v.nonce as nat);
    assert(b.subrange(16, 20) =~= le_enc(v.ntime as nat, 4));
    lemma_parse_uint_at(b, 16, 4, v.ntime as nat);
    assert(b.subrange(20, 24) =~= le_enc(v.version as nat, 4));
    lemma_parse_uint_at(b, 20, 4, v.version as nat);
    assert(b.subrange(24, 25) =~= le_enc(v.extranonce.len(), 1));
    assert(b.subrange(25, 25 + xn) =~= v.extranonce);
    lemma_parse_bytes_at(b, 24, 1, MAX_032 as int, v.extranonce);
    assert(parse_submit_shares_extended(b)->Ok_0.0 =~= v);
}

/// Truncation safety for [`SubmitSharesExtended`].
#[verifier::rlimit(30)]
pub proof fn lemma_submit_shares_extended_truncated(v: SubmitSharesExtendedView, c: int)
    requires
        v.wf(),
        0 <= c < v.encoded().len(),
    ensures
        parse_submit_shares_extended(v.encoded().take(c)) == Err::<
            (SubmitSharesExtendedView, int),
            CodecError,
        >(CodecError::TruncatedInput),
{
    lemma_pow256_values();
    lemma_submit_shares_extended_sizes(v);
    lemma_submit_shares_extended_round_trip(v, Seq::empty());
    let e = v.encoded();
    assert(e + Seq::<u8>::empty() =~= e);
    lemma_parse_uint_take(e, 0, 4, c);
    if c >= 4 {
        lemma_parse_uint_take(e, 4, 4, c);
    }
    if c >= 8 {
        lemma_parse_uint_take(e, 8, 4, c);
    }
    if c >= 12 {
        lemma_parse_uint_take(e, 12, 4, c);
    }
    if c >= 16 {
        lemma_parse_uint_take(e, 16, 4, c);
    }
    if c >= 20 {
        lemma_parse_uint_take(e, 20, 4, c);
    }
    if c >= 24 {
        lemma_parse_bytes_take(e, 24, 1, MAX_032 as int, c);
    }
}

/// Cumulative acceptance of a batch of share submissions on one channel.
///
/// The sequence number reported is the most recently received one with a
/// correct result, not the numerically highest: the upstream need not check
/// that downstream sequence numbers increase, and out-of-order arrivals are
/// aggregated as they come.
#[derive(Clone, Copy, Debug, PartialEq, Eq, Structural)]
pub struct SubmitSharesSuccess {
    /// Channel identifier.
    pub channel_id: u32,
    /// Most recent sequence number with a correct result.
    pub last_sequence_number: u32,
    /// Count of new submits acknowledged within this batch.
    pub new_submits_accepted_count: u32,
    /// Sum of shares acknowledged within this batch.
    pub new_shares_sum: u64,
}

/// Parse of a [`SubmitSharesSuccess`] wire form; trailing bytes are left
/// unread.
pub open spec fn parse_submit_shares_success(b: Seq<u8>) -> Result<
    (SubmitSharesSuccess, int),
    CodecError,
> {
    match parse_uint(b, 0, 4) {
        Err(e) => Err(e),
        Ok((ch, p1)) => match parse_uint(b, p1, 4) {
            Err(e) => Err(e),
            Ok((sq, p2)) => match parse_uint(b, p2, 4) {
                Err(e) => Err(e),
                Ok((ct, p3)) => match parse_uint(b, p3, 8) {
                    Err(e) => Err(e),
                    Ok((sm, p4)) => Ok(
                        (
                            SubmitSharesSuccess {
                                channel_id: ch as u32,
                                last_sequence_number: sq as u32,
                                new_submits_accepted_count: ct as u32,
                                new_shares_sum: sm as u64,
                            },
                            p4,
                        ),
                    ),
                },
            },
        },
    }
}

impl SubmitSharesSuccess {
    /// Wire form: each field in declared order.
    pub open spec fn encoded(self) -> Seq<u8> {
        le_enc(self.channel_id as nat, 4) + le_enc(self.last_sequence_number as nat, 4) + le_enc(
            self.new_submits_accepted_count as nat,
            4,
        ) + le_enc(self.new_shares_sum as nat, 8)
    }

    /// Exact byte length of the wire form.
    pub fn get_size(&self) -> (r: usize)
        ensures
            r == self.encoded().len(),
    {
        proof {
            lemma_le_enc_len(self.channel_id as nat, 4);
            lemma_le_enc_len(self.last_sequence_number as nat, 4);
            lemma_le_enc_len(self.new_submits_accepted_count as nat, 4);
            lemma_le_enc_len(self.new_shares_sum as nat, 8);
        }
        20
    }

    /// Encodes the message: each field in declared order.
    pub fn encode(&self) -> (r: Vec<u8>)
        ensures
            r@ == self.encoded(),
    {
        proof {
            lemma_pow256_values();
        }
        let mut out: Vec<u8> = Vec::new();
        write_uint(&mut out, self.channel_id as u64, 4);
        write_uint(&mut out, self.last_sequence_number as u64, 4);
        write_uint(&mut out, self.new_submits_accepted_count as u64, 4);
        write_uint(&mut out, self.new_shares_sum, 8);
        proof {
            assert(out@ =~= self.encoded());
        }
        out
    }

    /// Writes the wire form over the start of a caller-preallocated buffer;
    /// fails, writing nothing, when the buffer is smaller than the encoding.
    pub fn encode_into(&self, out: &mut Vec<u8>) -> (r: Result<usize, CodecError>)
        ensures
            match r {
                Ok(n) => {
                    &&& n == self.encoded().len()
                    &&& final(out)@.len() == old(out)@.len()
                    &&& final(out)@ == self.encoded() + old(out)@.skip(n as int)
                },
                Err(e) => {
                    &&& e == CodecError::BufferTooSmall
                    &&& final(out)@ == old(out)@
                    &&& old(out)@.len() < self.encoded().len()
                },
            },
    {
        let tmp = self.encode();
        write_prefix(out, &tmp)
    }

    /// Decodes a message from the start of `b`, exactly as
    /// [`parse_submit_shares_success`] describes.
    pub fn decode(b: &Vec<u8>) -> (r: Result<(SubmitSharesSuccess, usize), CodecError>)
        ensures
            match r {
                Ok(t) => {
                    &&& parse_submit_shares_success(b@) == Ok::<
                        (SubmitSharesSuccess, int),
                        CodecError,
                    >((t.0, t.1 as int))
                    &&& t.1 <= b@.len()
                },
                Err(e) => parse_submit_shares_success(b@) == Err::<
                    (SubmitSharesSuccess, int),
                    CodecError,
                >(e),
            },
    {
        let (ch, p1) = match read_uint(b, 0, 4) {
            Ok(t) => t,
            Err(e) => {
                return Err(e);
            },
        };
        let (sq, p2) = match read_uint(b, p1, 4) {
            Ok(t) => t,
            Err(e) => {
                return Err(e);
            },
        };
        let (ct, p3) = match read_uint(b, p2, 4) {
            Ok(t) => t,
            Err(e) => {
                return Err(e);
            },
        };
        let (sm, p4) = match read_uint(b, p3, 8) {
            Ok(t) => t,
            Err(e) => {
                return Err(e);
            },
        };
        proof {
            lemma_le_val_bound(b@.subrange(0, p1 as int));
            lemma_le_val_bound(b@.subrange(p1 as int, p2 as int));
            lemma_le_val_bound(b@.subrange(p2 as int, p3 as int));
            lemma_le_val_bound(b@.subrange(p3 as int, p4 as int));
            lemma_pow256_values();
        }
        Ok(
            (
                SubmitSharesSuccess {
                    channel_id: ch as u32,
                    last_sequence_number: sq as u32,
                    new_submits_accepted_count: ct as u32,
                    new_shares_sum: sm,
                },
                p4,
            ),
        )
    }
}

/// Round trip with forward compatibility for [`SubmitSharesSuccess`].
pub proof fn lemma_submit_shares_success_round_trip(m: SubmitSharesSuccess, rest: Seq<u8>)
    ensures
        parse_submit_shares_success(m.encoded() + rest) == Ok::<
            (SubmitSharesSuccess, int),
            CodecError,
        >((m, m.encoded().len() as int)),
{
    lemma_pow256_values();
    lemma_le_enc_len(m.channel_id as nat, 4);
    lemma_le_enc_len(m.last_sequence_number as nat, 4);
    lemma_le_enc_len(m.new_submits_accepted_count as nat, 4);
    lemma_le_enc_len(m.new_shares_sum as nat, 8);
    let b = m.encoded() + rest;
    assert(b.subrange(0, 4) =~= le_enc(m.channel_id as nat, 4));
    lemma_parse_uint_at(b, 0, 4, m.channel_id as nat);
    assert(b.subrange(4, 8) =~= le_enc(m.last_sequence_number as nat, 4));
    lemma_parse_uint_at(b, 4, 4, m.last_sequence_number as nat);
    assert(b.subrange(8, 12) =~= le_enc(m.new_submits_accepted_count as nat, 4));
    lemma_parse_uint_at(b, 8, 4, m.new_submits_accepted_count as nat);
    assert(b.subrange(12, 20) =~= le_enc(m.new_shares_sum as nat, 8));
    lemma_parse_uint_at(b, 12, 8, m.new_shares_sum as nat);
}

/// Truncation safety for [`SubmitSharesSuccess`].
pub proof fn lemma_submit_shares_success_truncated(m: SubmitSharesSuccess, c: int)
    requires
        0 <= c < m.encoded().len(),
    ensures
        parse_submit_shares_success(m.encoded().take(c)) == Err::<
            (SubmitSharesSuccess, int),
            CodecError,
        >(CodecError::TruncatedInput),
{
    lemma_pow256_values();
    lemma_le_enc_len(m.channel_id as nat, 4);
    lemma_le_enc_len(m.last_sequence_number as nat, 4);
    lemma_le_enc_len(m.new_submits_accepted_count as nat, 4);
    lemma_le_enc_len(m.new_shares_sum as nat, 8);
    lemma_submit_shares_success_round_trip(m, Seq::empty());
    let e = m.encoded();
    assert(e + Seq::<u8>::empty() =~= e);
    lemma_parse_uint_take(e, 0, 4, c);
    if c >= 4 {
        lemma_parse_uint_take(e, 4, 4, c);
    }
    if c >= 8 {
        lemma_parse_uint_take(e, 8, 4, c);
    }
    if c >= 12 {
        lemma_parse_uint_take(e, 12, 8, c);
    }
}

/// Rejection of a share submission, carried as data: one of a closed set of
/// string error codes names the application reason.
#[derive(Clone, Debug, PartialEq, Eq)]
pub struct SubmitSharesError {
    /// Channel identification.
    pub channel_id: u32,
    /// Unique sequential identifier of the submit within the channel.
    pub sequence_number: u32,
    /// Rejection reason: invalid-channel-id, stale-share, difficulty-too-low
    /// or invalid-job-id.
    pub error_code: Str0255,
}

/// Mathematical model of [`SubmitSharesError`].
#[verifier::ext_equal]
pub struct SubmitSharesErrorView {
    pub channel_id: u32,
    pub sequence_number: u32,
    pub error_code: Seq<u8>,
}

impl View for SubmitSharesError {
    type V = SubmitSharesErrorView;

    open spec fn view(&self) -> SubmitSharesErrorView {
        SubmitSharesErrorView {
            channel_id: self.channel_id,
            sequence_number: self.sequence_number,
            error_code: self.error_code@,
        }
    }
}

impl SubmitSharesErrorView {
    /// The bounded field is within its maximum.
    pub open spec fn wf(self) -> bool {
        self.error_code.len() <= MAX_0255
    }

    /// Wire form: channel, sequence number, then the length-prefixed error
    /// code.
    pub open spec fn encoded(self) -> Seq<u8> {
        le_enc(self.channel_id as nat, 4) + le_enc(self.sequence_number as nat, 4) + le_enc(
            self.error_code.len(),
            1,
        ) + self.error_code
    }
}

/// Parse of a [`SubmitSharesError`] wire form; trailing bytes are left
/// unread.
pub open spec fn parse_submit_shares_error(b: Seq<u8>) -> Result<
    (SubmitSharesErrorView, int),
    CodecError,
> {
    match parse_uint(b, 0, 4) {
        Err(e) => Err(e),
        Ok((ch, p1)) => match parse_uint(b, p1, 4) {
            Err(e) => Err(e),
            Ok((sq, p2)) => match parse_bytes(b, p2, 1, MAX_0255 as int) {
                Err(e) => Err(e),
                Ok((ec, p3)) => Ok(
                    (
                        SubmitSharesErrorView {
                            channel_id: ch as u32,
                            sequence_number: sq as u32,
                            error_code: ec,
                        },
                        p3,
                    ),
                ),
            },
        },
    }
}

impl SubmitSharesError {
    /// The error code a share on an unknown channel is rejected with.
    pub fn invalid_channel_error_code() -> (r: &'static str)
        ensures
            r@ == "invalid-channel-id"@,
    {
        "invalid-channel-id"
    }

    /// The error code a stale share is rejected with.
    pub fn stale_share_error_code() -> (r: &'static str)
        ensures
            r@ == "stale-share"@,
    {
        "stale-share"
    }

    /// The error code a share below the target difficulty is rejected with.
    pub fn difficulty_too_low_error_code() -> (r: &'static str)
        ensures
            r@ == "difficulty-too-low"@,
    {
        "difficulty-too-low"
    }

    /// The error code a share naming an unknown job is rejected with.
    pub fn invalid_job_id_error_code() -> (r: &'static str)
        ensures
            r@ == "invalid-job-id"@,
    {
        "invalid-job-id"
    }

    /// The bounded field is within its maximum.
    pub open spec fn wf(self) -> bool {
        self@.wf()
    }

    /// Exact byte length of the wire form.
    pub fn get_size(&self) -> (r: usize)
        requires
            self.wf(),
        ensures
            r == self@.encoded().len(),
    {
        proof {
            lemma_le_enc_len(self.channel_id as nat, 4);
            lemma_le_enc_len(self.sequence_number as nat, 4);
            lemma_le_enc_len(self.error_code@.len(), 1);
        }
        9 + self.error_code.len()
    }

    /// Encodes the message: each field in declared order.
    pub fn encode(&self) -> (r: Vec<u8>)
        requires
            self.wf(),
        ensures
            r@ == self@.encoded(),
    {
        proof {
            lemma_pow256_values();
        }
        let mut out: Vec<u8> = Vec::new();
        write_uint(&mut out, self.channel_id as u64, 4);
        write_uint(&mut out, self.sequence_number as u64, 4);
        write_bytes(&mut out, &self.error_code.data, 1);
        proof {
            assert(out@ =~= self@.encoded());
        }
        out
    }

    /// Writes the wire form over the start of a caller-preallocated buffer;
    /// fails, writing nothing, when the buffer is smaller than the encoding.
    pub fn encode_into(&self, out: &mut Vec<u8>) -> (r: Result<usize, CodecError>)
        requires
            self.wf(),
        ensures
            match r {
                Ok(n) => {
                    &&& n == self@.encoded().len()
                    &&& final(out)@.len() == old(out)@.len()
                    &&& final(out)@ == self@.encoded() + old(out)@.skip(n as int)
                },
                Err(e) => {
                    &&& e == CodecError::BufferTooSmall
                    &&& final(out)@ == old(out)@
                    &&& old(out)@.len() < self@.encoded().len()
                },
            },
    {
        let tmp = self.encode();
        write_prefix(out, &tmp)
    }

    /// Decodes a message from the start of `b`, exactly as
    /// [`parse_submit_shares_error`] describes.
    pub fn decode(b: &Vec<u8>) -> (r: Result<(SubmitSharesError, usize), CodecError>)
        ensures
            match r {
                Ok(t) => {
                    &&& parse_submit_shares_error(b@) == Ok::<
                        (SubmitSharesErrorView, int),
                        CodecError,
                    >((t.0@, t.1 as int))
                    &&& t.0.wf()
                    &&& t.1 <= b@.len()
                },
                Err(e) => parse_submit_shares_error(b@) == Err::<
                    (SubmitSharesErrorView, int),
                    CodecError,
                >(e),
            },
    {
        let (ch, p1) = match read_uint(b, 0, 4) {
            Ok(t) => t,
            Err(e) => {
                return Err(e);
            },
        };
        let (sq, p2) = match read_uint(b, p1, 4) {
            Ok(t) => t,
            Err(e) => {
                return Err(e);
            },
        };
        let (ec, p3) = match read_bytes(b, p2, 1, 255) {
            Ok(t) => t,
            Err(e) => {
                return Err(e);
            },
        };
        proof {
            lemma_le_val_bound(b@.subrange(0, p1 as int));
            lemma_le_val_bound(b@.subrange(p1 as int, p2 as int));
            lemma_pow256_values();
        }
        Ok(
            (
                SubmitSharesError {
                    channel_id: ch as u32,
                    sequence_number: sq as u32,
                    error_code: Str0255 { data: ec },
                },
                p3,
            ),
        )
    }

    /// An owning copy that no longer shares storage with anything; the
    /// message already owns its bytes, so this reproduces every field.
    pub fn into_static(self) -> (r: SubmitSharesError)
        ensures
            r@ == self@,
    {
        self
    }

    /// An owning copy of a borrowed message, field for field.
    pub fn as_static(&self) -> (r: SubmitSharesError)
        ensures
            r@ == self@,
    {
        SubmitSharesError {
            channel_id: self.channel_id,
            sequence_number: self.sequence_number,
            error_code: Str0255 { data: copy_bytes(&self.error_code.data) },
        }
    }
}

/// Round trip with forward compatibility for [`SubmitSharesError`].
pub proof fn lemma_submit_shares_error_round_trip(v: SubmitSharesErrorView, rest: Seq<u8>)
    requires
        v.wf(),
    ensures
        parse_submit_shares_error(v.encoded() + rest) == Ok::<
            (SubmitSharesErrorView, int),
            CodecError,
        >((v, v.encoded().len() as int)),
{
    lemma_pow256_values();
    lemma_le_enc_len(v.channel_id as nat, 4);
    lemma_le_enc_len(v.sequence_number as nat, 4);
    lemma_le_enc_len(v.error_code.len(), 1);
    let b = v.encoded() + rest;
    let ec = v.error_code.len() as int;
    assert(b.subrange(0, 4) =~= le_enc(v.channel_id as nat, 4));
    lemma_parse_uint_at(b, 0, 4, v.channel_id as nat);
    assert(b.subrange(4, 8) =~= le_enc(v.sequence_number as nat, 4));
    lemma_parse_uint_at(b, 4, 4, v.sequence_number as nat);
    assert(b.subrange(8, 9) =~= le_enc(v.error_code.len(), 1));
    assert(b.subrange(9, 9 + ec) =~= v.error_code);
    lemma_parse_bytes_at(b, 8, 1, MAX_0255 as int, v.error_code);
    assert(parse_submit_shares_error(b)->Ok_0.0 =~= v);
}

/// Truncation safety for [`SubmitSharesError`].
pub proof fn lemma_submit_shares_error_truncated(v: SubmitSharesErrorView, c: int)
    requires
        v.wf(),
        0 <= c < v.encoded().len(),
    ensures
        parse_submit_shares_error(v.encoded().take(c)) == Err::<
            (SubmitSharesErrorView, int),
            CodecError,
        >(CodecError::TruncatedInput),
{
    lemma_pow256_values();
    lemma_le_enc_len(v.channel_id as nat, 4);
    lemma_le_enc_len(v.sequence_number as nat, 4);
    lemma_le_enc_len(v.error_code.len(), 1);
    lemma_submit_shares_error_round_trip(v, Seq::empty());
    let e = v.encoded();
    assert(e + Seq::<u8>::empty() =~= e);
    lemma_parse_uint_take(e, 0, 4, c);
    if c >= 4 {
        lemma_parse_uint_take(e, 4, 4, c);
    }
    if c >= 8 {
        lemma_parse_bytes_take(e, 8, 1, MAX_0255 as int, c);
    }
}

} // verus!
