//! Connection-setup messages and the capability/version negotiation they
//! carry: protocol selection, version-range intersection, and per-protocol
//! feature-flag compatibility.

use vstd::prelude::*;
use crate::bounded::{Str0255, MAX_0255};
use crate::codec::{
    le_enc, parse_bytes, parse_uint, read_bytes, read_uint, write_bytes, write_prefix, write_uint,
    CodecError,
};
use crate::codec::{
    lemma_le_enc_len, lemma_le_val_bound, lemma_parse_bytes_at, lemma_parse_bytes_take,
    lemma_parse_uint_at, lemma_parse_uint_take, lemma_pow256_values,
};

verus! {

/// The Stratum V2 subprotocols a connection can be set up for.
#[derive(Debug, Clone, Copy, PartialEq, Eq, Structural)]
pub enum Protocol {
    /// Mining protocol.
    MiningProtocol,
    /// Job declaration protocol.
    JobDeclarationProtocol,
    /// Template distribution protocol.
    TemplateDistributionProtocol,
}

/// The numeric code of each protocol in the shared constant table.
pub open spec fn protocol_code(p: Protocol) -> u8 {
    match p {
        Protocol::MiningProtocol => 0,
        Protocol::JobDeclarationProtocol => 1,
        Protocol::TemplateDistributionProtocol => 2,
    }
}

/// The protocol a numeric code stands for, if any.
pub open spec fn spec_protocol_from_u8(v: u8) -> Option<Protocol> {
    if v == 0 {
        Some(Protocol::MiningProtocol)
    } else if v == 1 {
        Some(Protocol::JobDeclarationProtocol)
    } else if v == 2 {
        Some(Protocol::TemplateDistributionProtocol)
    } else {
        None
    }
}

/// Each protocol's code stands for that protocol and no other.
pub proof fn lemma_protocol_code_round(p: Protocol)
    ensures
        spec_protocol_from_u8(protocol_code(p)) == Some(p),
{
    match p {
        Protocol::MiningProtocol => {},
        Protocol::JobDeclarationProtocol => {},
        Protocol::TemplateDistributionProtocol => {},
    }
}

/// Relies on const_sv2::SV2_MINING_PROTOCOL_DISCRIMINANT: the mining
/// protocol's code in the externally shared constant table.
#[verifier::external_body]
fn mining_protocol_discriminant() -> (r: u8)
    ensures
        r == protocol_code(Protocol::MiningProtocol),
{
    const_sv2::SV2_MINING_PROTOCOL_DISCRIMINANT
}

/// Relies on const_sv2::SV2_JOB_DECLARATION_PROTOCOL_DISCRIMINANT: the job
/// declaration protocol's code in the externally shared constant table.
#[verifier::external_body]
fn job_declaration_protocol_discriminant() -> (r: u8)
    ensures
        r == protocol_code(Protocol::JobDeclarationProtocol),
{
    const_sv2::SV2_JOB_DECLARATION_PROTOCOL_DISCRIMINANT
}

/// Relies on const_sv2::SV2_TEMPLATE_DISTR_PROTOCOL_DISCRIMINANT: the template
/// distribution protocol's code in the externally shared constant table.
#[verifier::external_body]
fn template_distribution_protocol_discriminant() -> (r: u8)
    ensures
        r == protocol_code(Protocol::TemplateDistributionProtocol),
{
    const_sv2::SV2_TEMPLATE_DISTR_PROTOCOL_DISCRIMINANT
}

impl Protocol {
    /// The protocol a received code stands for; decoding fails on any other
    /// code.
    pub fn from_u8(v: u8) -> (r: Option<Protocol>)
        ensures
            r == spec_protocol_from_u8(v),
    {
        if v == mining_protocol_discriminant() {
            Some(Protocol::MiningProtocol)
        } else if v == job_declaration_protocol_discriminant() {
            Some(Protocol::JobDeclarationProtocol)
        } else if v == template_distribution_protocol_discriminant() {
            Some(Protocol::TemplateDistributionProtocol)
        } else {
            None
        }
    }

    /// The code this protocol is sent as.
    pub fn to_u8(self) -> (r: u8)
        ensures
            r == protocol_code(self),
    {
        match self {
            Protocol::MiningProtocol => mining_protocol_discriminant(),
            Protocol::JobDeclarationProtocol => job_declaration_protocol_discriminant(),
            Protocol::TemplateDistributionProtocol => template_distribution_protocol_discriminant(),
        }
    }

    /// Encoded width of the protocol field: one byte.
    pub fn get_size(&self) -> (r: usize)
        ensures
            r == 1,
    {
        1
    }
}

/// Whether the requires-standard-jobs bit (bit-index 0, counting from the
/// most significant bit after reversing the word, i.e. the least significant
/// bit) is set.
pub fn has_requires_std_job(flags: u32) -> (r: bool)
    ensures
        r == (flags & 0x1 != 0),
{
    flags & 0x1 != 0
}

/// Whether the requires-version-rolling bit (bit-index 1) is set.
pub fn has_version_rolling(flags: u32) -> (r: bool)
    ensures
        r == (flags & 0x2 != 0),
{
    flags & 0x2 != 0
}

/// Whether the requires-work-selection bit (bit-index 2) is set.
pub fn has_work_selection(flags: u32) -> (r: bool)
    ensures
        r == (flags & 0x4 != 0),
{
    flags & 0x4 != 0
}

/// Per-protocol feature-flag compatibility.
///
/// For the mining protocol the established wire behaviour compares the joint
/// masks over bit-indices 0..=1 (named work selection) and 0..=2 (named
/// version rolling). That mapping does not line up with the single-bit helper
/// predicates above; it is stated here exactly as both sides of existing
/// connections apply it, not harmonized, so any change stays a deliberate,
/// signalled one.
pub open spec fn spec_check_flags(
    protocol: Protocol,
    available_flags: u32,
    required_flags: u32,
) -> bool {
    match protocol {
        Protocol::MiningProtocol => {
            let requires_work_selection_self = available_flags & 0x3 != 0;
            let requires_version_rolling_self = available_flags & 0x7 != 0;
            let requires_work_selection_passed = required_flags & 0x3 != 0;
            let requires_version_rolling_passed = required_flags & 0x7 != 0;
            (!requires_work_selection_self || requires_work_selection_passed) && (
            !requires_version_rolling_self || requires_version_rolling_passed)
        },
        Protocol::JobDeclarationProtocol => {
            let requires_async_job_mining_self = available_flags & 0x1 != 0;
            let requires_async_job_mining_passed = required_flags & 0x1 != 0;
            requires_async_job_mining_self || !requires_async_job_mining_passed
        },
        Protocol::TemplateDistributionProtocol => false,
    }
}

/// Negotiated version for a peer range against a local range: the smaller of
/// the two maxima when the ranges overlap, and no version at all otherwise.
pub open spec fn spec_get_version(
    peer_min: u16,
    peer_max: u16,
    local_min: u16,
    local_max: u16,
) -> Option<u16> {
    if peer_min <= local_max && local_min <= peer_max {
        Some(
            if peer_max <= local_max {
                peer_max
            } else {
                local_max
            },
        )
    } else {
        None
    }
}

/// First message of a connection: the downstream's protocol choice, supported
/// version range, feature flags, and endpoint/device identification.
#[derive(Clone, Debug, PartialEq, Eq)]
pub struct SetupConnection {
    /// Protocol to be used for the connection.
    pub protocol: Protocol,
    /// The minimum protocol version supported.
    pub min_version: u16,
    /// The maximum protocol version supported.
    pub max_version: u16,
    /// Flags indicating optional protocol features the downstream supports;
    /// each protocol has its own flags.
    pub flags: u32,
    /// ASCII representation of the connection hostname or IP address.
    pub endpoint_host: Str0255,
    /// Connection port value.
    pub endpoint_port: u16,
    /// Device vendor name.
    pub vendor: Str0255,
    /// Device hardware version.
    pub hardware_version: Str0255,
    /// Device firmware version.
    pub firmware: Str0255,
    /// Device identifier.
    pub device_id: Str0255,
}

/// Mathematical model of [`SetupConnection`]: every variable-length field as
/// a plain byte sequence.
#[verifier::ext_equal]
pub struct SetupConnectionView {
    pub protocol: Protocol,
    pub min_version: u16,
    pub max_version: u16,
    pub flags: u32,
    pub endpoint_host: Seq<u8>,
    pub endpoint_port: u16,
    pub vendor: Seq<u8>,
    pub hardware_version: Seq<u8>,
    pub firmware: Seq<u8>,
    pub device_id: Seq<u8>,
}

impl View for SetupConnection {
    type V = SetupConnectionView;

    open spec fn view(&self) -> SetupConnectionView {
        SetupConnectionView {
            protocol: self.protocol,
            min_version: self.min_version,
            max_version: self.max_version,
            flags: self.flags,
            endpoint_host: self.endpoint_host@,
            endpoint_port: self.endpoint_port,
            vendor: self.vendor@,
            hardware_version: self.hardware_version@,
            firmware: self.firmware@,
            device_id: self.device_id@,
        }
    }
}

impl SetupConnectionView {
    /// Every bounded field is within its maximum.
    pub open spec fn wf(self) -> bool {
        &&& self.endpoint_host.len() <= MAX_0255
        &&& self.vendor.len() <= MAX_0255
        &&& self.hardware_version.len() <= MAX_0255
        &&& self.firmware.len() <= MAX_0255
        &&& self.device_id.len() <= MAX_0255
    }

    /// Wire form: each field in declared order, bounded fields with a
    /// one-byte length prefix.
    pub open spec fn encoded(self) -> Seq<u8> {
        le_enc(protocol_code(self.protocol) as nat, 1) + le_enc(self.min_version as nat, 2)
            + le_enc(self.max_version as nat, 2) + le_enc(self.flags as nat, 4) + le_enc(
            self.endpoint_host.len(),
            1,
        ) + self.endpoint_host + le_enc(self.endpoint_port as nat, 2) + le_enc(
            self.vendor.len(),
            1,
        ) + self.vendor + le_enc(self.hardware_version.len(), 1) + self.hardware_version + le_enc(
            self.firmware.len(),
            1,
        ) + self.firmware + le_enc(self.device_id.len(), 1) + self.device_id
    }
}

/// Parse of a [`SetupConnection`] wire form: fields in declared order,
/// stopping at the first field that is truncated, over-long, or an unknown
/// protocol code; trailing bytes are left unread.
pub open spec fn parse_setup_connection(b: Seq<u8>) -> Result<
    (SetupConnectionView, int),
    CodecError,
> {
    match parse_uint(b, 0, 1) {
        Err(e) => Err(e),
        Ok((code, p1)) => match spec_protocol_from_u8(code as u8) {
            None => Err(CodecError::UnknownDiscriminant),
            Some(protocol) => match parse_uint(b, p1, 2) {
                Err(e) => Err(e),
                Ok((minv, p2)) => match parse_uint(b, p2, 2) {
                    Err(e) => Err(e),
                    Ok((maxv, p3)) => match parse_uint(b, p3, 4) {
                        Err(e) => Err(e),
                        Ok((fl, p4)) => match parse_bytes(b, p4, 1, MAX_0255 as int) {
                            Err(e) => Err(e),
                            Ok((host, p5)) => match parse_uint(b, p5, 2) {
                                Err(e) => Err(e),
                                Ok((port, p6)) => match parse_bytes(b, p6, 1, MAX_0255 as int) {
                                    Err(e) => Err(e),
                                    Ok((vendor, p7)) => match parse_bytes(
                                        b,
                                        p7,
                                        1,
                                        MAX_0255 as int,
                                    ) {
                                        Err(e) => Err(e),
                                        Ok((hw, p8)) => match parse_bytes(b, p8, 1, MAX_0255 as int) {
                                            Err(e) => Err(e),
                                            Ok((fw, p9)) => match parse_bytes(
                                                b,
                                                p9,
                                                1,
                                                MAX_0255 as int,
                                            ) {
                                                Err(e) => Err(e),
                                                Ok((dev, p10)) => Ok(
                                                    (
                                                        SetupConnectionView {
                                                            protocol,
                                                            min_version: minv as u16,
                                                            max_version: maxv as u16,
                                                            flags: fl as u32,
                                                            endpoint_host: host,
                                                            endpoint_port: port as u16,
                                                            vendor,
                                                            hardware_version: hw,
                                                            firmware: fw,
                                                            device_id: dev,
                                                        },
                                                        p10,
                                                    ),
                                                ),
                                            },
                                        },
                                    },
                                },
                            },
                        },
                    },
                },
            },
        },
    }
}

impl SetupConnection {
    /// Every bounded field is within its maximum.
    pub open spec fn wf(self) -> bool {
        self@.wf()
    }

    /// Set the flag bit that says the downstream requires a standard job.
    pub fn set_requires_standard_job(&mut self)
        ensures
            *final(self) == (SetupConnection { flags: old(self).flags | 0x1, ..*old(self) }),
    {
        self.flags = self.flags | 0x1;
    }

    /// Set the flag bit that says the downstream requires asynchronous job
    /// negotiation.
    pub fn set_async_job_nogotiation(&mut self)
        ensures
            *final(self) == (SetupConnection { flags: old(self).flags | 0x1, ..*old(self) }),
    {
        self.flags = self.flags | 0x1;
    }

    /// Whether `available_flags` satisfies `required_flags` under the given
    /// protocol's compatibility rule; see [`spec_check_flags`].
    pub fn check_flags(protocol: Protocol, available_flags: u32, required_flags: u32) -> (r: bool)
        ensures
            r == spec_check_flags(protocol, available_flags, required_flags),
    {
        match protocol {
            Protocol::MiningProtocol => {
                let requires_work_selection_self = available_flags & 0x3 != 0;
                let requires_version_rolling_self = available_flags & 0x7 != 0;
                let requires_work_selection_passed = required_flags & 0x3 != 0;
                let requires_version_rolling_passed = required_flags & 0x7 != 0;
                let work_selection = !requires_work_selection_self
                    || requires_work_selection_passed;
                let version_rolling = !requires_version_rolling_self
                    || requires_version_rolling_passed;
                work_selection && version_rolling
            },
            Protocol::JobDeclarationProtocol => {
                let requires_async_job_mining_self = available_flags & 0x1 != 0;
                let requires_async_job_mining_passed = required_flags & 0x1 != 0;
                requires_async_job_mining_self || !requires_async_job_mining_passed
            },
            Protocol::TemplateDistributionProtocol => false,
        }
    }

    /// The version to use against a local range, or no version when the
    /// ranges do not overlap; incompatibility is an answer, not a failure.
    pub fn get_version(&self, min_version: u16, max_version: u16) -> (r: Option<u16>)
        ensures
            r == spec_get_version(self.min_version, self.max_version, min_version, max_version),
    {
        if self.min_version > max_version || min_version > self.max_version {
            None
        } else {
            if self.max_version <= max_version {
                Some(self.max_version)
            } else {
                Some(max_version)
            }
        }
    }

    /// Whether this message's flags say the downstream requires standard
    /// jobs.
    pub fn requires_standard_job(&self) -> (r: bool)
        ensures
            r == (self.flags & 0x1 != 0),
    {
        has_requires_std_job(self.flags)
    }

    /// Exact byte length of the wire form; an encode into a buffer of this
    /// size succeeds.
    pub fn get_size(&self) -> (r: usize)
        requires
            self.wf(),
        ensures
            r == self@.encoded().len(),
    {
        proof {
            lemma_setup_connection_sizes(self@);
        }
        16 + self.endpoint_host.len() + self.vendor.len() + self.hardware_version.len()
            + self.firmware.len() + self.device_id.len()
    }

    /// Encodes the message: each field in declared order.
    pub fn encode(&self) -> (r: Vec<u8>)
        requires
            self.wf(),
        ensures
            r@ == self@.encoded(),
    {
        proof {
            lemma_pow256_values();
        }
        let mut out: Vec<u8> = Vec::new();
        write_uint(&mut out, self.protocol.to_u8() as u64, 1);
        write_uint(&mut out, self.min_version as u64, 2);
        write_uint(&mut out, self.max_version as u64, 2);
        write_uint(&mut out, self.flags as u64, 4);
        write_bytes(&mut out, &self.endpoint_host.data, 1);
        write_uint(&mut out, self.endpoint_port as u64, 2);
        write_bytes(&mut out, &self.vendor.data, 1);
        write_bytes(&mut out, &self.hardware_version.data, 1);
        write_bytes(&mut out, &self.firmware.data, 1);
        write_bytes(&mut out, &self.device_id.data, 1);
        proof {
            assert(out@ =~= self@.encoded());
        }
        out
    }

    /// Writes the wire form over the start of a caller-preallocated buffer;
    /// fails, writing nothing, when the buffer is smaller than the encoding.
    pub fn encode_into(&self, out: &mut Vec<u8>) -> (r: Result<usize, CodecError>)
        requires
            self.wf(),
        ensures
            match r {
                Ok(n) => {
                    &&& n == self@.encoded().len()
                    &&& final(out)@.len() == old(out)@.len()
                    &&& final(out)@ == self@.encoded() + old(out)@.skip(n as int)
                },
                Err(e) => {
                    &&& e == CodecError::BufferTooSmall
                    &&& final(out)@ == old(out)@
                    &&& old(out)@.len() < self@.encoded().len()
                },
            },
    {
        let tmp = self.encode();
        write_prefix(out, &tmp)
    }

    /// Decodes a message from the start of `b`, exactly as
    /// [`parse_setup_connection`] describes; trailing bytes are ignored and
    /// the consumed length is returned beside the message.
    pub fn decode(b: &Vec<u8>) -> (r: Result<(SetupConnection, usize), CodecError>)
        ensures
            match r {
                Ok(t) => {
                    &&& parse_setup_connection(b@) == Ok::<(SetupConnectionView, int), CodecError>(
                        (t.0@, t.1 as int),
                    )
                    &&& t.0.wf()
                    &&& t.1 <= b@.len()
                },
                Err(e) => parse_setup_connection(b@) == Err::<
                    (SetupConnectionView, int),
                    CodecError,
                >(e),
            },
    {
        let (code, p1) = match read_uint(b, 0, 1) {
            Ok(t) => t,
            Err(e) => {
                return Err(e);
            },
        };
        let protocol = match Protocol::from_u8(code as u8) {
            Some(p) => p,
            None => {
                return Err(CodecError::UnknownDiscriminant);
            },
        };
        let (minv, p2) = match read_uint(b, p1, 2) {
            Ok(t) => t,
            Err(e) => {
                return Err(e);
            },
        };
        let (maxv, p3) = match read_uint(b, p2, 2) {
            Ok(t) => t,
            Err(e) => {
                return Err(e);
            },
        };
        let (fl, p4) = match read_uint(b, p3, 4) {
            Ok(t) => t,
            Err(e) => {
                return Err(e);
            },
        };
        let (host, p5) = match read_bytes(b, p4, 1, 255) {
            Ok(t) => t,
            Err(e) => {
                return Err(e);
            },
        };
        let (port, p6) = match read_uint(b, p5, 2) {
            Ok(t) => t,
            Err(e) => {
                return Err(e);
            },
        };
        let (vendor, p7) = match read_bytes(b, p6, 1, 255) {
            Ok(t) => t,
            Err(e) => {
                return Err(e);
            },
        };
        let (hw, p8) = match read_bytes(b, p7, 1, 255) {
            Ok(t) => t,
            Err(e) => {
                return Err(e);
            },
        };
        let (fw, p9) = match read_bytes(b, p8, 1, 255) {
            Ok(t) => t,
            Err(e) => {
                return Err(e);
            },
        };
        let (dev, p10) = match read_bytes(b, p9, 1, 255) {
            Ok(t) => t,
            Err(e) => {
                return Err(e);
            },
        };
        proof {
            lemma_le_val_bound(b@.subrange(p1 as int, p2 as int));
            lemma_le_val_bound(b@.subrange(p2 as int, p3 as int));
            lemma_le_val_bound(b@.subrange(p3 as int, p4 as int));
            lemma_le_val_bound(b@.subrange(p5 as int, p6 as int));
            lemma_pow256_values();
        }
        Ok(
            (
                SetupConnection {
                    protocol,
                    min_version: minv as u16,
                    max_version: maxv as u16,
                    flags: fl as u32,
                    endpoint_host: Str0255 { data: host },
                    endpoint_port: port as u16,
                    vendor: Str0255 { data: vendor },
                    hardware_version: Str0255 { data: hw },
                    firmware: Str0255 { data: fw },
                    device_id: Str0255 { data: dev },
                },
                p10,
            ),
        )
    }
}

/// Field offsets and total length of the [`SetupConnection`] wire form.
pub proof fn lemma_setup_connection_sizes(v: SetupConnectionView)
    ensures
        v.encoded().len() == 16 + v.endpoint_host.len() + v.vendor.len()
            + v.hardware_version.len() + v.firmware.len() + v.device_id.len(),
{
    lemma_le_enc_len(protocol_code(v.protocol) as nat, 1);
    lemma_le_enc_len(v.min_version as nat, 2);
    lemma_le_enc_len(v.max_version as nat, 2);
    lemma_le_enc_len(v.flags as nat, 4);
    lemma_le_enc_len(v.endpoint_host.len(), 1);
    lemma_le_enc_len(v.endpoint_port as nat, 2);
    lemma_le_enc_len(v.vendor.len(), 1);
    lemma_le_enc_len(v.hardware_version.len(), 1);
    lemma_le_enc_len(v.firmware.len(), 1);
    lemma_le_enc_len(v.device_id.len(), 1);
}

/// Round trip with forward compatibility: the encoding of any well-formed
/// message, with any trailing bytes after it, parses back to exactly that
/// message, consuming exactly the encoding's length.
#[verifier::rlimit(60)]
pub proof fn lemma_setup_connection_round_trip(v: SetupConnectionView, rest: Seq<u8>)
    requires
        v.wf(),
    ensures
        parse_setup_connection(v.encoded() + rest) == Ok::<(SetupConnectionView, int), CodecError>(
            (v, v.encoded().len() as int),
        ),
{
    lemma_pow256_values();
    lemma_setup_connection_sizes(v);
    lemma_le_enc_len(protocol_code(v.protocol) as nat, 1);
    lemma_le_enc_len(v.min_version as nat, 2);
    lemma_le_enc_len(v.max_version as nat, 2);
    lemma_le_enc_len(v.flags as nat, 4);
    lemma_le_enc_len(v.endpoint_host.len(), 1);
    lemma_le_enc_len(v.endpoint_port as nat, 2);
    lemma_le_enc_len(v.vendor.len(), 1);
    lemma_le_enc_len(v.hardware_version.len(), 1);
    lemma_le_enc_len(v.firmware.len(), 1);
    lemma_le_enc_len(v.device_id.len(), 1);
    let b = v.encoded() + rest;
    let code = protocol_code(v.protocol);
    let h = v.endpoint_host.len() as int;
    let vn = v.vendor.len() as int;
    let hw = v.hardware_version.len() as int;
    let fw = v.firmware.len() as int;
    let dd = v.device_id.len() as int;
    assert(b.subrange(0, 1) =~= le_enc(code as nat, 1));
    lemma_parse_uint_at(b, 0, 1, code as nat);
    lemma_protocol_code_round(v.protocol);
    assert(b.subrange(1, 3) =~= le_enc(v.min_version as nat, 2));
    lemma_parse_uint_at(b, 1, 2, v.min_version as nat);
    assert(b.subrange(3, 5) =~= le_enc(v.max_version as nat, 2));
    lemma_parse_uint_at(b, 3, 2, v.max_version as nat);
    assert(b.subrange(5, 9) =~= le_enc(v.flags as nat, 4));
    lemma_parse_uint_at(b, 5, 4, v.flags as nat);
    assert(b.subrange(9, 10) =~= le_enc(v.endpoint_host.len(), 1));
    assert(b.subrange(10, 10 + h) =~= v.endpoint_host);
    lemma_parse_bytes_at(b, 9, 1, MAX_0255 as int, v.endpoint_host);
    assert(b.subrange(10 + h, 12 + h) =~= le_enc(v.endpoint_port as nat, 2));
    lemma_parse_uint_at(b, 10 + h, 2, v.endpoint_port as nat);
    assert(b.subrange(12 + h, 13 + h) =~= le_enc(v.vendor.len(), 1));
    assert(b.subrange(13 + h, 13 + h + vn) =~= v.vendor);
    lemma_parse_bytes_at(b, 12 + h, 1, MAX_0255 as int, v.vendor);
    assert(b.subrange(13 + h + vn, 14 + h + vn) =~= le_enc(v.hardware_version.len(), 1));
    assert(b.subrange(14 + h + vn, 14 + h + vn + hw) =~= v.hardware_version);
    lemma_parse_bytes_at(b, 13 + h + vn, 1, MAX_0255 as int, v.hardware_version);
    assert(b.subrange(14 + h + vn + hw, 15 + h + vn + hw) =~= le_enc(v.firmware.len(), 1));
    assert(b.subrange(15 + h + vn + hw, 15 + h + vn + hw + fw) =~= v.firmware);
    lemma_parse_bytes_at(b, 14 + h + vn + hw, 1, MAX_0255 as int, v.firmware);
    assert(b.subrange(15 + h + vn + hw + fw, 16 + h + vn + hw + fw) =~= le_enc(
        v.device_id.len(),
        1,
    ));
    assert(b.subrange(16 + h + vn + hw + fw, 16 + h + vn + hw + fw + dd) =~= v.device_id);
    lemma_parse_bytes_at(b, 15 + h + vn + hw + fw, 1, MAX_0255 as int, v.device_id);
    assert(parse_setup_connection(b)->Ok_0.0 =~= v);
}

/// Truncation safety: any strict prefix of a well-formed message's encoding
/// fails to parse with a truncated-input error, never with wrong data.
#[verifier::rlimit(60)]
pub proof fn lemma_setup_connection_truncated(v: SetupConnectionView, c: int)
    requires
        v.wf(),
        0 <= c < v.encoded().len(),
    ensures
        parse_setup_connection(v.encoded().take(c)) == Err::<
            (SetupConnectionView, int),
            CodecError,
        >(CodecError::TruncatedInput),
{
    lemma_pow256_values();
    lemma_setup_connection_sizes(v);
    lemma_le_enc_len(protocol_code(v.protocol) as nat, 1);
    lemma_le_enc_len(v.min_version as nat, 2);
    lemma_le_enc_len(v.max_version as nat, 2);
    lemma_le_enc_len(v.flags as nat, 4);
    lemma_le_enc_len(v.endpoint_host.len(), 1);
    lemma_le_enc_len(v.endpoint_port as nat, 2);
    lemma_le_enc_len(v.vendor.len(), 1);
    lemma_le_enc_len(v.hardware_version.len(), 1);
    lemma_le_enc_len(v.firmware.len(), 1);
    lemma_le_enc_len(v.device_id.len(), 1);
    lemma_setup_connection_round_trip(v, Seq::empty());
    let e = v.encoded();
    assert(e + Seq::<u8>::empty() =~= e);
    let b = e.take(c);
    let h = v.endpoint_host.len() as int;
    let vn = v.vendor.len() as int;
    let hw = v.hardware_version.len() as int;
    let fw = v.firmware.len() as int;
    lemma_protocol_code_round(v.protocol);
    lemma_parse_uint_take(e, 0, 1, c);
    if c >= 1 {
        lemma_parse_uint_take(e, 1, 2, c);
    }
    if c >= 3 {
        lemma_parse_uint_take(e, 3, 2, c);
    }
    if c >= 5 {
        lemma_parse_uint_take(e, 5, 4, c);
    }
    if c >= 9 {
        lemma_parse_bytes_take(e, 9, 1, MAX_0255 as int, c);
    }
    if c >= 10 + h {
        lemma_parse_uint_take(e, 10 + h, 2, c);
    }
    if c >= 12 + h {
        lemma_parse_bytes_take(e, 12 + h, 1, MAX_0255 as int, c);
    }
    if c >= 13 + h + vn {
        lemma_parse_bytes_take(e, 13 + h + vn, 1, MAX_0255 as int, c);
    }
    if c >= 14 + h + vn + hw {
        lemma_parse_bytes_take(e, 14 + h + vn + hw, 1, MAX_0255 as int, c);
    }
    if c >= 15 + h + vn + hw + fw {
        lemma_parse_bytes_take(e, 15 + h + vn + hw + fw, 1, MAX_0255 as int, c);
    }
}

/// Acceptance of a connection setup: the version chosen from the offered
/// range, used for the rest of the connection's life, and the feature flags
/// the upstream supports.
#[derive(Clone, Copy, Debug, PartialEq, Eq, Structural)]
pub struct SetupConnectionSuccess {
    /// Selected version based on the offered range.
    pub used_version: u16,
    /// Flags indicating optional protocol features the upstream supports.
    pub flags: u32,
}

/// Parse of a [`SetupConnectionSuccess`] wire form; trailing bytes are left
/// unread.
pub open spec fn parse_setup_connection_success(b: Seq<u8>) -> Result<
    (SetupConnectionSuccess, int),
    CodecError,
> {
    match parse_uint(b, 0, 2) {
        Err(e) => Err(e),
        Ok((uv, p1)) => match parse_uint(b, p1, 4) {
            Err(e) => Err(e),
            Ok((fl, p2)) => Ok(
                (SetupConnectionSuccess { used_version: uv as u16, flags: fl as u32 }, p2),
            ),
        },
    }
}

impl SetupConnectionSuccess {
    /// Wire form: used version, then flags.
    pub open spec fn encoded(self) -> Seq<u8> {
        le_enc(self.used_version as nat, 2) + le_enc(self.flags as nat, 4)
    }

    /// Exact byte length of the wire form.
    pub fn get_size(&self) -> (r: usize)
        ensures
            r == self.encoded().len(),
    {
        proof {
            lemma_le_enc_len(self.used_version as nat, 2);
            lemma_le_enc_len(self.flags as nat, 4);
        }
        6
    }

    /// Encodes the message: each field in declared order.
    pub fn encode(&self) -> (r: Vec<u8>)
        ensures
            r@ == self.encoded(),
    {
        proof {
            lemma_pow256_values();
        }
        let mut out: Vec<u8> = Vec::new();
        write_uint(&mut out, self.used_version as u64, 2);
        write_uint(&mut out, self.flags as u64, 4);
        proof {
            assert(out@ =~= self.encoded());
        }
        out
    }

    /// Writes the wire form over the start of a caller-preallocated buffer;
    /// fails, writing nothing, when the buffer is smaller than the encoding.
    pub fn encode_into(&self, out: &mut Vec<u8>) -> (r: Result<usize, CodecError>)
        ensures
            match r {
                Ok(n) => {
                    &&& n == self.encoded().len()
                    &&& final(out)@.len() == old(out)@.len()
                    &&& final(out)@ == self.encoded() + old(out)@.skip(n as int)
                },
                Err(e) => {
                    &&& e == CodecError::BufferTooSmall
                    &&& final(out)@ == old(out)@
                    &&& old(out)@.len() < self.encoded().len()
                },
            },
    {
        let tmp = self.encode();
        write_prefix(out, &tmp)
    }

    /// Decodes a message from the start of `b`, exactly as
    /// [`parse_setup_connection_success`] describes.
    pub fn decode(b: &Vec<u8>) -> (r: Result<(SetupConnectionSuccess, usize), CodecError>)
        ensures
            match r {
                Ok(t) => {
                    &&& parse_setup_connection_success(b@) == Ok::<
                        (SetupConnectionSuccess, int),
                        CodecError,
                    >((t.0, t.1 as int))
                    &&& t.1 <= b@.len()
                },
                Err(e) => parse_setup_connection_success(b@) == Err::<
                    (SetupConnectionSuccess, int),
                    CodecError,
                >(e),
            },
    {
        let (uv, p1) = match read_uint(b, 0, 2) {
            Ok(t) => t,
            Err(e) => {
                return Err(e);
            },
        };
        let (fl, p2) = match read_uint(b, p1, 4) {
            Ok(t) => t,
            Err(e) => {
                return Err(e);
            },
        };
        proof {
            lemma_le_val_bound(b@.subrange(0, p1 as int));
            lemma_le_val_bound(b@.subrange(p1 as int, p2 as int));
            lemma_pow256_values();
        }
        Ok((SetupConnectionSuccess { used_version: uv as u16, flags: fl as u32 }, p2))
    }
}

/// Round trip with forward compatibility for [`SetupConnectionSuccess`].
pub proof fn lemma_setup_connection_success_round_trip(m: SetupConnectionSuccess, rest: Seq<u8>)
    ensures
        parse_setup_connection_success(m.encoded() + rest) == Ok::<
            (SetupConnectionSuccess, int),
            CodecError,
        >((m, m.encoded().len() as int)),
{
    lemma_pow256_values();
    lemma_le_enc_len(m.used_version as nat, 2);
    lemma_le_enc_len(m.flags as nat, 4);
    let b = m.encoded() + rest;
    assert(b.subrange(0, 2) =~= le_enc(m.used_version as nat, 2));
    lemma_parse_uint_at(b, 0, 2, m.used_version as nat);
    assert(b.subrange(2, 6) =~= le_enc(m.flags as nat, 4));
    lemma_parse_uint_at(b, 2, 4, m.flags as nat);
}

/// Truncation safety for [`SetupConnectionSuccess`].
pub proof fn lemma_setup_connection_success_truncated(m: SetupConnectionSuccess, c: int)
    requires
        0 <= c < m.encoded().len(),
    ensures
        parse_setup_connection_success(m.encoded().take(c)) == Err::<
            (SetupConnectionSuccess, int),
            CodecError,
        >(CodecError::TruncatedInput),
{
    lemma_pow256_values();
    lemma_le_enc_len(m.used_version as nat, 2);
    lemma_le_enc_len(m.flags as nat, 4);
    lemma_setup_connection_success_round_trip(m, Seq::empty());
    let e = m.encoded();
    assert(e + Seq::<u8>::empty() =~= e);
    lemma_parse_uint_take(e, 0, 2, c);
    if c >= 2 {
        lemma_parse_uint_take(e, 2, 4, c);
    }
}

/// Rejection of a connection setup, with the unsupported feature flags echoed
/// back when the rejection reason is unsupported flags (and 0 otherwise), and
/// one of a closed set of error codes: unsupported-feature-flags,
/// unsupported-protocol, protocol-version-mismatch.
#[derive(Clone, Debug, PartialEq, Eq)]
pub struct SetupConnectionError {
    /// Unsupported feature flags.
    pub flags: u32,
    /// Reason for the setup connection error.
    pub error_code: Str0255,
}

/// Mathematical model of [`SetupConnectionError`].
#[verifier::ext_equal]
pub struct SetupConnectionErrorView {
    pub flags: u32,
    pub error_code: Seq<u8>,
}

impl View for SetupConnectionError {
    type V = SetupConnectionErrorView;

    open spec fn view(&self) -> SetupConnectionErrorView {
        SetupConnectionErrorView { flags: self.flags, error_code: self.error_code@ }
    }
}

impl SetupConnectionErrorView {
    /// The bounded field is within its maximum.
    pub open spec fn wf(self) -> bool {
        self.error_code.len() <= MAX_0255
    }

    /// Wire form: flags, then the length-prefixed error code.
    pub open spec fn encoded(self) -> Seq<u8> {
        le_enc(self.flags as nat, 4) + le_enc(self.error_code.len(), 1) + self.error_code
    }
}

/// Parse of a [`SetupConnectionError`] wire form; trailing bytes are left
/// unread.
pub open spec fn parse_setup_connection_error(b: Seq<u8>) -> Result<
    (SetupConnectionErrorView, int),
    CodecError,
> {
    match parse_uint(b, 0, 4) {
        Err(e) => Err(e),
        Ok((fl, p1)) => match parse_bytes(b, p1, 1, MAX_0255 as int) {
            Err(e) => Err(e),
            Ok((ec, p2)) => Ok(
                (SetupConnectionErrorView { flags: fl as u32, error_code: ec }, p2),
            ),
        },
    }
}

impl SetupConnectionError {
    /// The bounded field is within its maximum.
    pub open spec fn wf(self) -> bool {
        self@.wf()
    }

    /// Exact byte length of the wire form.
    pub fn get_size(&self) -> (r: usize)
        requires
            self.wf(),
        ensures
            r == self@.encoded().len(),
    {
        proof {
            lemma_le_enc_len(self.flags as nat, 4);
            lemma_le_enc_len(self.error_code@.len(), 1);
        }
        5 + self.error_code.len()
    }

    /// Encodes the message: each field in declared order.
    pub fn encode(&self) -> (r: Vec<u8>)
        requires
            self.wf(),
        ensures
            r@ == self@.encoded(),
    {
        proof {
            lemma_pow256_values();
        }
        let mut out: Vec<u8> = Vec::new();
        write_uint(&mut out, self.flags as u64, 4);
        write_bytes(&mut out, &self.error_code.data, 1);
        proof {
            assert(out@ =~= self@.encoded());
        }
        out
    }

    /// Writes the wire form over the start of a caller-preallocated buffer;
    /// fails, writing nothing, when the buffer is smaller than the encoding.
    pub fn encode_into(&self, out: &mut Vec<u8>) -> (r: Result<usize, CodecError>)
        requires
            self.wf(),
        ensures
            match r {
                Ok(n) => {
                    &&& n == self@.encoded().len()
                    &&& final(out)@.len() == old(out)@.len()
                    &&& final(out)@ == self@.encoded() + old(out)@.skip(n as int)
                },
                Err(e) => {
                    &&& e == CodecError::BufferTooSmall
                    &&& final(out)@ == old(out)@
                    &&& old(out)@.len() < self@.encoded().len()
                },
            },
    {
        let tmp = self.encode();
        write_prefix(out, &tmp)
    }

    /// Decodes a message from the start of `b`, exactly as
    /// [`parse_setup_connection_error`] describes.
    pub fn decode(b: &Vec<u8>) -> (r: Result<(SetupConnectionError, usize), CodecError>)
        ensures
            match r {
                Ok(t) => {
                    &&& parse_setup_connection_error(b@) == Ok::<
                        (SetupConnectionErrorView, int),
                        CodecError,
                    >((t.0@, t.1 as int))
                    &&& t.0.wf()
                    &&& t.1 <= b@.len()
                },
                Err(e) => parse_setup_connection_error(b@) == Err::<
                    (SetupConnectionErrorView, int),
                    CodecError,
                >(e),
            },
    {
        let (fl, p1) = match read_uint(b, 0, 4) {
            Ok(t) => t,
            Err(e) => {
                return Err(e);
            },
        };
        let (ec, p2) = match read_bytes(b, p1, 1, 255) {
            Ok(t) => t,
            Err(e) => {
                return Err(e);
            },
        };
        proof {
            lemma_le_val_bound(b@.subrange(0, p1 as int));
            lemma_pow256_values();
        }
        Ok((SetupConnectionError { flags: fl as u32, error_code: Str0255 { data: ec } }, p2))
    }
}

/// Round trip with forward compatibility for [`SetupConnectionError`].
pub proof fn lemma_setup_connection_error_round_trip(v: SetupConnectionErrorView, rest: Seq<u8>)
    requires
        v.wf(),
    ensures
        parse_setup_connection_error(v.encoded() + rest) == Ok::<
            (SetupConnectionErrorView, int),
            CodecError,
        >((v, v.encoded().len() as int)),
{
    lemma_pow256_values();
    lemma_le_enc_len(v.flags as nat, 4);
    lemma_le_enc_len(v.error_code.len(), 1);
    let b = v.encoded() + rest;
    let ec = v.error_code.len() as int;
    assert(b.subrange(0, 4) =~= le_enc(v.flags as nat, 4));
    lemma_parse_uint_at(b, 0, 4, v.flags as nat);
    assert(b.subrange(4, 5) =~= le_enc(v.error_code.len(), 1));
    assert(b.subrange(5, 5 + ec) =~= v.error_code);
    lemma_parse_bytes_at(b, 4, 1, MAX_0255 as int, v.error_code);
    assert(parse_setup_connection_error(b)->Ok_0.0 =~= v);
}

/// Truncation safety for [`SetupConnectionError`].
pub proof fn lemma_setup_connection_error_truncated(v: SetupConnectionErrorView, c: int)
    requires
        v.wf(),
        0 <= c < v.encoded().len(),
    ensures
        parse_setup_connection_error(v.encoded().take(c)) == Err::<
            (SetupConnectionErrorView, int),
            CodecError,
        >(CodecError::TruncatedInput),
{
    lemma_pow256_values();
    lemma_le_enc_len(v.flags as nat, 4);
    lemma_le_enc_len(v.error_code.len(), 1);
    lemma_setup_connection_error_round_trip(v, Seq::empty());
    let e = v.encoded();
    assert(e + Seq::<u8>::empty() =~= e);
    lemma_parse_uint_take(e, 0, 4, c);
    if c >= 4 {
        lemma_parse_bytes_take(e, 4, 1, MAX_0255 as int, c);
    }
}

/// Owning mirror of [`SetupConnection`] for callers across an ABI boundary:
/// every variable-length field is an independently owned byte block.
#[derive(Clone, Debug)]
pub struct CSetupConnection {
    /// Protocol to be used for the connection.
    pub protocol: Protocol,
    /// The minimum protocol version supported.
    pub min_version: u16,
    /// The maximum protocol version supported.
    pub max_version: u16,
    /// Flags indicating optional protocol features the downstream supports.
    pub flags: u32,
    /// ASCII representation of the connection hostname or IP address.
    pub endpoint_host: Vec<u8>,
    /// Connection port value.
    pub endpoint_port: u16,
    /// Device vendor name.
    pub vendor: Vec<u8>,
    /// Device hardware version.
    pub hardware_version: Vec<u8>,
    /// Device firmware version.
    pub firmware: Vec<u8>,
    /// Device identifier.
    pub device_id: Vec<u8>,
}

impl CSetupConnection {
    /// The mirror a message converts into: each bounded field's bytes become
    /// an owned block.
    pub open spec fn spec_from_rust(m: SetupConnection) -> CSetupConnection {
        CSetupConnection {
            protocol: m.protocol,
            min_version: m.min_version,
            max_version: m.max_version,
            flags: m.flags,
            endpoint_host: m.endpoint_host.data,
            endpoint_port: m.endpoint_port,
            vendor: m.vendor.data,
            hardware_version: m.hardware_version.data,
            firmware: m.firmware.data,
            device_id: m.device_id.data,
        }
    }

    /// The message a mirror converts back into: succeeds exactly when every
    /// owned block is within its bounded maximum.
    pub open spec fn spec_to_rust(self) -> Result<SetupConnection, CodecError> {
        if self.endpoint_host@.len() <= MAX_0255 && self.vendor@.len() <= MAX_0255
            && self.hardware_version@.len() <= MAX_0255 && self.firmware@.len() <= MAX_0255
            && self.device_id@.len() <= MAX_0255 {
            Ok(
                SetupConnection {
                    protocol: self.protocol,
                    min_version: self.min_version,
                    max_version: self.max_version,
                    flags: self.flags,
                    endpoint_host: Str0255 { data: self.endpoint_host },
                    endpoint_port: self.endpoint_port,
                    vendor: Str0255 { data: self.vendor },
                    hardware_version: Str0255 { data: self.hardware_version },
                    firmware: Str0255 { data: self.firmware },
                    device_id: Str0255 { data: self.device_id },
                },
            )
        } else {
            Err(CodecError::LengthViolation)
        }
    }

    /// Convert the mirror into the library representation, checking every
    /// owned block against its bounded maximum.
    pub fn to_rust_rep_mut(self) -> (r: Result<SetupConnection, CodecError>)
        ensures
            r == self.spec_to_rust(),
    {
        if self.endpoint_host.len() > 255 || self.vendor.len() > 255
            || self.hardware_version.len() > 255 || self.firmware.len() > 255
            || self.device_id.len() > 255 {
            return Err(CodecError::LengthViolation);
        }
        Ok(
            SetupConnection {
                protocol: self.protocol,
                min_version: self.min_version,
                max_version: self.max_version,
                flags: self.flags,
                endpoint_host: Str0255 { data: self.endpoint_host },
                endpoint_port: self.endpoint_port,
                vendor: Str0255 { data: self.vendor },
                hardware_version: Str0255 { data: self.hardware_version },
                firmware: Str0255 { data: self.firmware },
                device_id: Str0255 { data: self.device_id },
            },
        )
    }

    /// Frees every owned block, leaving empty blocks behind. Safe on a
    /// partially populated mirror, and releasing twice leaves the same empty
    /// state.
    pub fn release(&mut self)
        ensures
            final(self).protocol == old(self).protocol,
            final(self).min_version == old(self).min_version,
            final(self).max_version == old(self).max_version,
            final(self).flags == old(self).flags,
            final(self).endpoint_port == old(self).endpoint_port,
            final(self).endpoint_host@.len() == 0,
            final(self).vendor@.len() == 0,
            final(self).hardware_version@.len() == 0,
            final(self).firmware@.len() == 0,
            final(self).device_id@.len() == 0,
    {
        self.endpoint_host = Vec::new();
        self.vendor = Vec::new();
        self.hardware_version = Vec::new();
        self.firmware = Vec::new();
        self.device_id = Vec::new();
    }
}

impl From<SetupConnection> for CSetupConnection {
    /// Convert the library representation into the owning mirror.
    fn from(v: SetupConnection) -> Self {
        CSetupConnection {
            protocol: v.protocol,
            min_version: v.min_version,
            max_version: v.max_version,
            flags: v.flags,
            endpoint_host: v.endpoint_host.data,
            endpoint_port: v.endpoint_port,
            vendor: v.vendor.data,
            hardware_version: v.hardware_version.data,
            firmware: v.firmware.data,
            device_id: v.device_id.data,
        }
    }
}

impl vstd::std_specs::convert::FromSpecImpl<SetupConnection> for CSetupConnection {
    open spec fn obeys_from_spec() -> bool {
        true
    }

    open spec fn from_spec(v: SetupConnection) -> CSetupConnection {
        CSetupConnection::spec_from_rust(v)
    }
}

/// Releases a [`CSetupConnection`]: frees every owned block and consumes the
/// mirror, so a second release of the same instance cannot happen.
pub fn free_setup_connection(s: CSetupConnection) {
    let mut s = s;
    s.release();
}

/// Foreign-representation safety: converting a well-formed message to its
/// owning mirror and back reproduces the original message.
pub proof fn lemma_setup_connection_foreign_round_trip(m: SetupConnection)
    requires
        m.wf(),
    ensures
        CSetupConnection::spec_from_rust(m).spec_to_rust() == Ok::<SetupConnection, CodecError>(m),
{
}

/// Owning mirror of [`SetupConnectionError`] for callers across an ABI
/// boundary.
#[derive(Clone, Debug)]
pub struct CSetupConnectionError {
    /// Unsupported feature flags.
    pub flags: u32,
    /// Reason for the setup connection error.
    pub error_code: Vec<u8>,
}

impl CSetupConnectionError {
    /// The mirror a message converts into.
    pub open spec fn spec_from_rust(m: SetupConnectionError) -> CSetupConnectionError {
        CSetupConnectionError { flags: m.flags, error_code: m.error_code.data }
    }

    /// The message a mirror converts back into: succeeds exactly when the
    /// owned block is within its bounded maximum.
    pub open spec fn spec_to_rust(self) -> Result<SetupConnectionError, CodecError> {
        if self.error_code@.len() <= MAX_0255 {
            Ok(SetupConnectionError { flags: self.flags, error_code: Str0255 { data: self.error_code } })
        } else {
            Err(CodecError::LengthViolation)
        }
    }

    /// Convert the mirror into the library representation, checking the
    /// owned block against its bounded maximum.
    pub fn to_rust_rep_mut(self) -> (r: Result<SetupConnectionError, CodecError>)
        ensures
            r == self.spec_to_rust(),
    {
        if self.error_code.len() > 255 {
            return Err(CodecError::LengthViolation);
        }
        Ok(SetupConnectionError { flags: self.flags, error_code: Str0255 { data: self.error_code } })
    }

    /// Frees the owned block, leaving an empty block behind. Safe on a
    /// partially populated mirror, and releasing twice leaves the same empty
    /// state.
    pub fn release(&mut self)
        ensures
            final(self).flags == old(self).flags,
            final(self).error_code@.len() == 0,
    {
        self.error_code = Vec::new();
    }
}

impl From<SetupConnectionError> for CSetupConnectionError {
    /// Convert the library representation into the owning mirror.
    fn from(v: SetupConnectionError) -> Self {
        CSetupConnectionError { flags: v.flags, error_code: v.error_code.data }
    }
}

impl vstd::std_specs::convert::FromSpecImpl<SetupConnectionError> for CSetupConnectionError {
    open spec fn obeys_from_spec() -> bool {
        true
    }

    open spec fn from_spec(v: SetupConnectionError) -> CSetupConnectionError {
        CSetupConnectionError::spec_from_rust(v)
    }
}

/// Releases a [`CSetupConnectionError`]: frees the owned block and consumes
/// the mirror.
pub fn free_setup_connection_error(s: CSetupConnectionError) {
    let mut s = s;
    s.release();
}

/// Foreign-representation safety: converting a well-formed message to its
/// owning mirror and back reproduces the original message.
pub proof fn lemma_setup_connection_error_foreign_round_trip(m: SetupConnectionError)
    requires
        m.wf(),
    ensures
        CSetupConnectionError::spec_from_rust(m).spec_to_rust() == Ok::<
            SetupConnectionError,
            CodecError,
        >(m),
{
}

} // verus!
