//! Little-endian integer fields and length-prefixed byte fields: the two
//! primitives every protocol message is built from, with the specification
//! functions that define the wire format and the lemmas that relate encoding
//! to parsing.

use vstd::prelude::*;

verus! {

/// A decode or encode failure. Decoding consumes no input on failure; the
/// caller keeps the buffer.
#[derive(Clone, Copy, Debug, PartialEq, Eq, Structural)]
pub enum CodecError {
    /// Fewer bytes were available than a field declares.
    TruncatedInput,
    /// A bounded type's declared maximum was exceeded.
    LengthViolation,
    /// An unrecognized protocol or message-type code.
    UnknownDiscriminant,
    /// The caller-supplied output buffer is too small for the encoding.
    BufferTooSmall,
}

/// The value of a byte sequence read as a little-endian unsigned integer.
pub open spec fn le_val(b: Seq<u8>) -> nat
    decreases b.len(),
{
    if b.len() == 0 {
        0
    } else {
        b[0] as nat + 256 * le_val(b.skip(1))
    }
}

/// The `width`-byte little-endian encoding of `v` (low byte first).
pub open spec fn le_enc(v: nat, width: nat) -> Seq<u8>
    decreases width,
{
    if width == 0 {
        Seq::empty()
    } else {
        seq![(v % 256) as u8] + le_enc(v / 256, (width - 1) as nat)
    }
}

/// 256 to the power `width`: the number of values a `width`-byte field holds.
pub open spec fn pow256(width: nat) -> nat
    decreases width,
{
    if width == 0 {
        1
    } else {
        256 * pow256((width - 1) as nat)
    }
}

/// The wire form of a length-prefixed byte field: the length as a
/// `prefix_width`-byte little-endian integer, then the raw bytes.
pub open spec fn enc_bytes(data: Seq<u8>, prefix_width: nat) -> Seq<u8> {
    le_enc(data.len(), prefix_width) + data
}

/// Parse of a fixed-width little-endian integer at `pos`: the value and the
/// position after it, or a truncation failure.
pub open spec fn parse_uint(b: Seq<u8>, pos: int, width: int) -> Result<(nat, int), CodecError> {
    if 0 <= pos && 0 < width && pos + width <= b.len() {
        Ok((le_val(b.subrange(pos, pos + width)), pos + width))
    } else {
        Err(CodecError::TruncatedInput)
    }
}

/// Parse of a length-prefixed byte field at `pos` whose declared maximum
/// length is `max`: the payload bytes and the position after them, a
/// length-violation if the prefix exceeds `max`, or a truncation failure.
pub open spec fn parse_bytes(b: Seq<u8>, pos: int, prefix_width: int, max: int) -> Result<
    (Seq<u8>, int),
    CodecError,
> {
    match parse_uint(b, pos, prefix_width) {
        Err(e) => Err(e),
        Ok((l, p)) => if l > max {
            Err(CodecError::LengthViolation)
        } else if p + l <= b.len() {
            Ok((b.subrange(p, p + l), p + l))
        } else {
            Err(CodecError::TruncatedInput)
        },
    }
}

pub proof fn lemma_le_enc_len(v: nat, width: nat)
    ensures
        le_enc(v, width).len() == width,
    decreases width,
{
    if width > 0 {
        lemma_le_enc_len(v / 256, (width - 1) as nat);
    }
}

pub proof fn lemma_pow256_mono(a: nat, b: nat)
    requires
        a <= b,
    ensures
        pow256(a) <= pow256(b),
    decreases b,
{
    if a < b && b > 0 {
        lemma_pow256_mono(a, (b - 1) as nat);
    }
}

/// Decoding the encoding of `v` gives `v` back, provided `v` fits the width.
pub proof fn lemma_le_val_le_enc(v: nat, width: nat)
    requires
        v < pow256(width),
    ensures
        le_val(le_enc(v, width)) == v,
    decreases width,
{
    if width > 0 {
        lemma_le_enc_len(v / 256, (width - 1) as nat);
        lemma_le_val_le_enc(v / 256, (width - 1) as nat);
        assert(le_enc(v, width).skip(1) =~= le_enc(v / 256, (width - 1) as nat));
        assert(v == v % 256 + 256 * (v / 256)) by (nonlinear_arith);
        assert(v / 256 < pow256((width - 1) as nat)) by (nonlinear_arith)
            requires
                v < 256 * pow256((width - 1) as nat),
        ;
    }
}

/// A little-endian field's value is bounded by the width it was read from.
pub proof fn lemma_le_val_bound(b: Seq<u8>)
    ensures
        le_val(b) < pow256(b.len() as nat),
    decreases b.len(),
{
    if b.len() > 0 {
        lemma_le_val_bound(b.skip(1));
        assert(le_val(b) == b[0] as nat + 256 * le_val(b.skip(1)));
        assert(b[0] as nat + 256 * le_val(b.skip(1)) < 256 * pow256((b.len() - 1) as nat))
            by (nonlinear_arith)
            requires
                b[0] < 256,
                le_val(b.skip(1)) < pow256((b.len() - 1) as nat),
        ;
    }
}

/// Useful concrete field bounds, stated once so callers need not unfold
/// `pow256` themselves.
pub proof fn lemma_pow256_values()
    ensures
        pow256(1) == 0x100,
        pow256(2) == 0x10000,
        pow256(3) == 0x1000000,
        pow256(4) == 0x100000000,
        pow256(7) == 0x100000000000000,
        pow256(8) == 0x10000000000000000,
{
    reveal_with_fuel(pow256, 9);
}

/// An integer field laid down at `pos` parses back to its value: the heart of
/// every round-trip argument.
pub proof fn lemma_parse_uint_at(b: Seq<u8>, pos: int, width: nat, v: nat)
    requires
        0 <= pos,
        0 < width,
        pos + width <= b.len(),
        v < pow256(width),
        b.subrange(pos, pos + width) == le_enc(v, width),
    ensures
        parse_uint(b, pos, width as int) == Ok::<(nat, int), CodecError>((v, pos + width)),
{
    lemma_le_val_le_enc(v, width);
}

/// A length-prefixed field laid down at `pos` parses back to its payload.
pub proof fn lemma_parse_bytes_at(b: Seq<u8>, pos: int, prefix_width: nat, max: int, data: Seq<u8>)
    requires
        0 <= pos,
        0 < prefix_width,
        data.len() <= max,
        max < pow256(prefix_width),
        pos + prefix_width + data.len() <= b.len(),
        b.subrange(pos, pos + prefix_width) == le_enc(data.len(), prefix_width),
        b.subrange(pos + prefix_width, pos + prefix_width + data.len()) == data,
    ensures
        parse_bytes(b, pos, prefix_width as int, max) == Ok::<(Seq<u8>, int), CodecError>(
            (data, pos + prefix_width + data.len()),
        ),
{
    lemma_parse_uint_at(b, pos, prefix_width, data.len());
}

/// Cutting a buffer short anywhere inside an integer field turns its parse
/// into a truncation failure; cutting at or after its end leaves it intact.
pub proof fn lemma_parse_uint_take(b: Seq<u8>, pos: int, width: int, c: int)
    requires
        0 <= pos,
        0 < width,
        pos + width <= b.len(),
        pos <= c <= b.len(),
    ensures
        c >= pos + width ==> parse_uint(b.take(c), pos, width) == parse_uint(b, pos, width),
        c < pos + width ==> parse_uint(b.take(c), pos, width) == Err::<(nat, int), CodecError>(
            CodecError::TruncatedInput,
        ),
{
    if c >= pos + width {
        assert(b.take(c).subrange(pos, pos + width) =~= b.subrange(pos, pos + width));
    }
}

/// The same cut behaviour for a length-prefixed field, provided the full
/// buffer holds a legal (within-maximum) field at `pos`.
pub proof fn lemma_parse_bytes_take(b: Seq<u8>, pos: int, prefix_width: int, max: int, c: int)
    requires
        0 <= pos,
        0 < prefix_width,
        pos <= c <= b.len(),
        parse_bytes(b, pos, prefix_width, max) matches Ok(t),
    ensures
        parse_bytes(b, pos, prefix_width, max) matches Ok(t) ==> {
            &&& c >= t.1 ==> parse_bytes(b.take(c), pos, prefix_width, max) == parse_bytes(
                b,
                pos,
                prefix_width,
                max,
            )
            &&& c < t.1 ==> parse_bytes(b.take(c), pos, prefix_width, max) == Err::<
                (Seq<u8>, int),
                CodecError,
            >(CodecError::TruncatedInput)
        },
{
    let t = parse_bytes(b, pos, prefix_width, max)->Ok_0;
    lemma_parse_uint_take(b, pos, prefix_width, c);
    if c >= pos + prefix_width {
        let l = parse_uint(b, pos, prefix_width)->Ok_0.0;
        let p = pos + prefix_width;
        if c >= t.1 {
            assert(b.take(c).subrange(p, p + l) =~= b.subrange(p, p + l));
        }
    }
}

/// Reads a `width`-byte little-endian unsigned integer at `pos`.
pub fn read_uint(b: &Vec<u8>, pos: usize, width: usize) -> (r: Result<(u64, usize), CodecError>)
    requires
        1 <= width <= 8,
        pos <= b@.len(),
    ensures
        match r {
            Ok(t) => {
                &&& parse_uint(b@, pos as int, width as int) == Ok::<(nat, int), CodecError>(
                    ((t.0 as nat), t.1 as int),
                )
                &&& t.1 == pos + width
            },
            Err(e) => parse_uint(b@, pos as int, width as int) == Err::<(nat, int), CodecError>(e),
        },
{
    if b.len() - pos < width {
        return Err(CodecError::TruncatedInput);
    }
    let mut v: u64 = 0;
    let mut i: usize = width;
    proof {
        assert(b@.subrange((pos + width) as int, (pos + width) as int) =~= Seq::<u8>::empty());
    }
    while i > 0
        invariant
            pos + width <= b@.len() <= usize::MAX,
            i <= width <= 8,
            v as nat == le_val(b@.subrange((pos + i) as int, (pos + width) as int)),
        decreases i,
    {
        proof {
            lemma_le_val_bound(b@.subrange((pos + i) as int, (pos + width) as int));
            lemma_pow256_mono(((pos + width) - (pos + i)) as nat, 7);
            lemma_pow256_values();
        }
        i = i - 1;
        let byte = b[pos + i];
        proof {
            assert(b@.subrange((pos + i) as int, (pos + width) as int).skip(1) =~= b@.subrange(
                (pos + i + 1) as int,
                (pos + width) as int,
            ));
            assert(b@.subrange((pos + i) as int, (pos + width) as int)[0] == b@[(pos + i) as int]);
        }
        v = v * 256 + (byte as u64);
    }
    proof {
        assert(b@.subrange(pos as int, (pos + width) as int) == b@.subrange(
            (pos + 0) as int,
            (pos + width) as int,
        ));
    }
    Ok((v, pos + width))
}

/// Reads a length-prefixed byte field at `pos`; the payload is copied out of
/// the buffer so the result owns its bytes.
pub fn read_bytes(b: &Vec<u8>, pos: usize, prefix_width: usize, max: u64) -> (r: Result<
    (Vec<u8>, usize),
    CodecError,
>)
    requires
        1 <= prefix_width <= 8,
        pos <= b@.len(),
        max <= 0xffff_ffff,
    ensures
        match r {
            Ok(t) => {
                &&& parse_bytes(b@, pos as int, prefix_width as int, max as int) == Ok::<
                    (Seq<u8>, int),
                    CodecError,
                >((t.0@, t.1 as int))
                &&& t.1 <= b@.len()
                &&& t.0@.len() <= max
            },
            Err(e) => parse_bytes(b@, pos as int, prefix_width as int, max as int) == Err::<
                (Seq<u8>, int),
                CodecError,
            >(e),
        },
{
    let (l, p) = match read_uint(b, pos, prefix_width) {
        Ok(t) => t,
        Err(e) => {
            return Err(e);
        },
    };
    if l > max {
        return Err(CodecError::LengthViolation);
    }
    let len: usize = l as usize;
    proof {
        assert(len == l);
    }
    if b.len() - p < len {
        return Err(CodecError::TruncatedInput);
    }
    let mut data: Vec<u8> = Vec::new();
    let mut j: usize = 0;
    while j < len
        invariant
            p + len <= b@.len() <= usize::MAX,
            j <= len,
            data@ =~= b@.subrange(p as int, (p + j) as int),
        decreases len - j,
    {
        data.push(b[p + j]);
        j = j + 1;
    }
    proof {
        assert(data@ =~= b@.subrange(p as int, (p + len) as int));
    }
    Ok((data, p + len))
}

/// Appends the `width`-byte little-endian encoding of `v`.
pub fn write_uint(out: &mut Vec<u8>, v: u64, width: usize)
    requires
        1 <= width <= 8,
        (v as nat) < pow256(width as nat),
    ensures
        final(out)@ == old(out)@ + le_enc(v as nat, width as nat),
{
    let ghost complete = old(out)@ + le_enc(v as nat, width as nat);
    let mut vc: u64 = v;
    let mut i: usize = 0;
    while i < width
        invariant
            i <= width,
            out@ + le_enc(vc as nat, (width - i) as nat) == complete,
        decreases width - i,
    {
        let byte = (vc % 256) as u8;
        proof {
            assert(le_enc(vc as nat, (width - i) as nat) == seq![
                ((vc as nat) % 256) as u8,
            ] + le_enc((vc as nat) / 256, (width - i - 1) as nat));
            assert((out@ + le_enc(vc as nat, (width - i) as nat)) =~= (out@.push(byte) + le_enc(
                (vc as nat) / 256,
                (width - i - 1) as nat,
            )));
            assert((vc / 256) as nat == (vc as nat) / 256);
        }
        out.push(byte);
        vc = vc / 256;
        i = i + 1;
    }
    proof {
        assert(le_enc(vc as nat, 0) =~= Seq::<u8>::empty());
        assert(out@ =~= out@ + le_enc(vc as nat, 0));
    }
}

/// Appends a length-prefixed byte field: the length of `data`, then `data`.
pub fn write_bytes(out: &mut Vec<u8>, data: &Vec<u8>, prefix_width: usize)
    requires
        1 <= prefix_width <= 8,
        (data@.len() as nat) < pow256(prefix_width as nat),
    ensures
        final(out)@ == old(out)@ + enc_bytes(data@, prefix_width as nat),
{
    proof {
        lemma_pow256_values();
        lemma_pow256_mono(prefix_width as nat, 8);
    }
    write_uint(out, data.len() as u64, prefix_width);
    let ghost mid = out@;
    let mut j: usize = 0;
    while j < data.len()
        invariant
            j <= data@.len(),
            out@ =~= mid + data@.subrange(0, j as int),
        decreases data@.len() - j,
    {
        out.push(data[j]);
        j = j + 1;
    }
    proof {
        assert(data@.subrange(0, data@.len() as int) =~= data@);
        assert(out@ =~= old(out)@ + enc_bytes(data@, prefix_width as nat));
    }
}

/// Writes `src` over the start of `dst`, as an encoder does with a
/// caller-preallocated buffer; fails, leaving `dst` unchanged, when `dst` is
/// too small, and never writes a partial encoding.
pub fn write_prefix(dst: &mut Vec<u8>, src: &Vec<u8>) -> (r: Result<usize, CodecError>)
    ensures
        match r {
            Ok(n) => {
                &&& n == src@.len()
                &&& final(dst)@.len() == old(dst)@.len()
                &&& final(dst)@ == src@ + old(dst)@.skip(n as int)
            },
            Err(e) => {
                &&& e == CodecError::BufferTooSmall
                &&& final(dst)@ == old(dst)@
                &&& old(dst)@.len() < src@.len()
            },
        },
{
    if dst.len() < src.len() {
        return Err(CodecError::BufferTooSmall);
    }
    let n = src.len();
    let mut j: usize = 0;
    while j < n
        invariant
            n == src@.len() <= dst@.len(),
            j <= n,
            dst@.len() == old(dst)@.len(),
            dst@ =~= src@.subrange(0, j as int) + old(dst)@.skip(j as int),
        decreases n - j,
    {
        let byte = src[j];
        dst.set(j, byte);
        proof {
            assert(dst@ =~= src@.subrange(0, (j + 1) as int) + old(dst)@.skip((j + 1) as int));
        }
        j = j + 1;
    }
    proof {
        assert(src@.subrange(0, n as int) =~= src@);
    }
    Ok(n)
}

} // verus!
