//! The extensions that a ClientHello carries, as plain values.
use vstd::prelude::*;

verus! {

pub const EXT_SERVER_NAME: u16 = 0;
pub const EXT_STATUS_REQUEST: u16 = 5;
pub const EXT_NAMED_GROUPS: u16 = 10;
pub const EXT_EC_POINT_FORMATS: u16 = 11;
pub const EXT_SIGNATURE_ALGORITHMS: u16 = 13;
pub const EXT_ALPN: u16 = 16;
pub const EXT_SCT: u16 = 18;
pub const EXT_PADDING: u16 = 21;
pub const EXT_EXTENDED_MASTER_SECRET: u16 = 23;
pub const EXT_COMPRESS_CERTIFICATE: u16 = 27;
pub const EXT_SESSION_TICKET: u16 = 35;
pub const EXT_SUPPORTED_VERSIONS: u16 = 43;
pub const EXT_PSK_KEY_EXCHANGE_MODES: u16 = 45;
pub const EXT_KEY_SHARE: u16 = 51;
pub const EXT_RENEGOTIATION_INFO: u16 = 65281;

/// Protocol version identifiers.
pub const TLS_V1_2: u16 = 0x0303;
pub const TLS_V1_3: u16 = 0x0304;

/// The one PSK key exchange mode that is offered: PSK with (EC)DHE.
pub const PSK_DHE_KE: u8 = 1;
/// The uncompressed EC point format.
pub const EC_POINT_UNCOMPRESSED: u8 = 0;

/// A reserved (GREASE) value: one of 0x0a0a, 0x1a1a, ..., 0xfafa.
/// These are exactly the 16-bit values congruent to 0x0a0a modulo 0x1010.
pub open spec fn is_grease(v: u16) -> bool {
    v % 0x1010 == 0x0a0a
}

/// The `i`-th reserved value, for `i` in `0..16`.
pub open spec fn grease_value(i: int) -> int {
    0x0a0a + 0x1010 * i
}

pub fn check_grease(v: u16) -> (r: bool)
    ensures
        r == is_grease(v),
{
    v % 0x1010 == 0x0a0a
}

/// Certificate compression algorithms, with their registered identifiers.
#[derive(Debug, Clone, Copy, PartialEq, Eq, Structural)]
pub enum CompressCertificateOptions {
    Zlib,
    Brotli,
    Zstd,
}

impl CompressCertificateOptions {
    pub open spec fn spec_code(self) -> u16 {
        match self {
            CompressCertificateOptions::Zlib => 1,
            CompressCertificateOptions::Brotli => 2,
            CompressCertificateOptions::Zstd => 3,
        }
    }

    pub fn code(&self) -> (r: u16)
        ensures
            r == self.spec_code(),
    {
        match self {
            CompressCertificateOptions::Zlib => 1,
            CompressCertificateOptions::Brotli => 2,
            CompressCertificateOptions::Zstd => 3,
        }
    }
}

/// One ClientHello extension with its payload.
#[derive(Debug, Clone)]
pub enum ClientExtension {
    /// Server name indication; the payload is the encoded name list.
    ServerName(Vec<u8>),
    /// An OCSP status request with no responder ids and no extensions.
    StatusRequest,
    NamedGroups(Vec<u16>),
    EcPointFormats(Vec<u8>),
    SignatureAlgorithms(Vec<u16>),
    /// ALPN protocol names.
    Protocols(Vec<Vec<u8>>),
    SignedCertificateTimestamp,
    Padding(Vec<u8>),
    ExtendedMasterSecretRequest,
    CompressCertificate(Vec<u16>),
    SessionTicketRequest,
    SupportedVersions(Vec<u16>),
    PresharedKeyModes(Vec<u8>),
    /// Key share; the payload is the encoded entries.
    KeyShare(Vec<u8>),
    /// Renegotiation info with an empty renegotiated connection.
    RenegotiationInfo,
    /// Any other extension: its type and raw payload.
    Unknown(u16, Vec<u8>),
}

/// The mathematical value of a `ClientExtension`.
pub enum ExtModel {
    ServerName(Seq<u8>),
    StatusRequest,
    NamedGroups(Seq<u16>),
    EcPointFormats(Seq<u8>),
    SignatureAlgorithms(Seq<u16>),
    Protocols(Seq<Seq<u8>>),
    SignedCertificateTimestamp,
    Padding(Seq<u8>),
    ExtendedMasterSecretRequest,
    CompressCertificate(Seq<u16>),
    SessionTicketRequest,
    SupportedVersions(Seq<u16>),
    PresharedKeyModes(Seq<u8>),
    KeyShare(Seq<u8>),
    RenegotiationInfo,
    Unknown(u16, Seq<u8>),
}

impl ExtModel {
    /// The extension type number on the wire.
    pub open spec fn ext_type(self) -> u16 {
        match self {
            ExtModel::ServerName(_) => EXT_SERVER_NAME,
            ExtModel::StatusRequest => EXT_STATUS_REQUEST,
            ExtModel::NamedGroups(_) => EXT_NAMED_GROUPS,
            ExtModel::EcPointFormats(_) => EXT_EC_POINT_FORMATS,
            ExtModel::SignatureAlgorithms(_) => EXT_SIGNATURE_ALGORITHMS,
            ExtModel::Protocols(_) => EXT_ALPN,
            ExtModel::SignedCertificateTimestamp => EXT_SCT,
            ExtModel::Padding(_) => EXT_PADDING,
            ExtModel::ExtendedMasterSecretRequest => EXT_EXTENDED_MASTER_SECRET,
            ExtModel::CompressCertificate(_) => EXT_COMPRESS_CERTIFICATE,
            ExtModel::SessionTicketRequest => EXT_SESSION_TICKET,
            ExtModel::SupportedVersions(_) => EXT_SUPPORTED_VERSIONS,
            ExtModel::PresharedKeyModes(_) => EXT_PSK_KEY_EXCHANGE_MODES,
            ExtModel::KeyShare(_) => EXT_KEY_SHARE,
            ExtModel::RenegotiationInfo => EXT_RENEGOTIATION_INFO,
            ExtModel::Unknown(t, _) => t,
        }
    }

    /// A reserved-value marker: an empty extension whose type is a GREASE value.
    pub open spec fn is_noise(self) -> bool {
        match self {
            ExtModel::Unknown(t, p) => is_grease(t) && p.len() == 0,
            _ => false,
        }
    }
}

impl View for ClientExtension {
    type V = ExtModel;

    open spec fn view(&self) -> ExtModel {
        match self {
            ClientExtension::ServerName(p) => ExtModel::ServerName(p@),
            ClientExtension::StatusRequest => ExtModel::StatusRequest,
            ClientExtension::NamedGroups(g) => ExtModel::NamedGroups(g@),
            ClientExtension::EcPointFormats(f) => ExtModel::EcPointFormats(f@),
            ClientExtension::SignatureAlgorithms(s) => ExtModel::SignatureAlgorithms(s@),
            ClientExtension::Protocols(p) => ExtModel::Protocols(names_view(p@)),
            ClientExtension::SignedCertificateTimestamp => ExtModel::SignedCertificateTimestamp,
            ClientExtension::Padding(p) => ExtModel::Padding(p@),
            ClientExtension::ExtendedMasterSecretRequest => ExtModel::ExtendedMasterSecretRequest,
            ClientExtension::CompressCertificate(c) => ExtModel::CompressCertificate(c@),
            ClientExtension::SessionTicketRequest => ExtModel::SessionTicketRequest,
            ClientExtension::SupportedVersions(v) => ExtModel::SupportedVersions(v@),
            ClientExtension::PresharedKeyModes(m) => ExtModel::PresharedKeyModes(m@),
            ClientExtension::KeyShare(p) => ExtModel::KeyShare(p@),
            ClientExtension::RenegotiationInfo => ExtModel::RenegotiationInfo,
            ClientExtension::Unknown(t, p) => ExtModel::Unknown(*t, p@),
        }
    }
}

/// The views of a sequence of extensions.
pub open spec fn exts_view(s: Seq<ClientExtension>) -> Seq<ExtModel> {
    s.map_values(|e: ClientExtension| e@)
}

pub fn copy_u8s(v: &Vec<u8>) -> (r: Vec<u8>)
    ensures
        r@ == v@,
{
    let r = v.clone();
    assert(r@ =~= v@);
    r
}

pub fn copy_u16s(v: &Vec<u16>) -> (r: Vec<u16>)
    ensures
        r@ == v@,
{
    let r = v.clone();
    assert(r@ =~= v@);
    r
}

/// The views of a list of protocol names.
pub open spec fn names_view(s: Seq<Vec<u8>>) -> Seq<Seq<u8>> {
    s.map_values(|n: Vec<u8>| n@)
}

pub fn copy_names(v: &Vec<Vec<u8>>) -> (r: Vec<Vec<u8>>)
    ensures
        names_view(r@) == names_view(v@),
{
    let mut r: Vec<Vec<u8>> = Vec::new();
    let mut i: usize = 0;
    while i < v.len()
        invariant
            i <= v.len(),
            names_view(r@) =~= names_view(v@).subrange(0, i as int),
        decreases v.len() - i,
    {
        let n = copy_u8s(&v[i]);
        proof {
            let rv = r@;
            assert(names_view(rv.push(n)) =~= names_view(rv).push(n@));
        }
        r.push(n);
        i += 1;
    }
    assert(names_view(r@) =~= names_view(v@));
    r
}

impl ClientExtension {
    /// The extension type number on the wire.
    pub fn get_ext_type(&self) -> (r: u16)
        ensures
            r == self@.ext_type(),
    {
        match self {
            ClientExtension::ServerName(_) => EXT_SERVER_NAME,
            ClientExtension::StatusRequest => EXT_STATUS_REQUEST,
            ClientExtension::NamedGroups(_) => EXT_NAMED_GROUPS,
            ClientExtension::EcPointFormats(_) => EXT_EC_POINT_FORMATS,
            ClientExtension::SignatureAlgorithms(_) => EXT_SIGNATURE_ALGORITHMS,
            ClientExtension::Protocols(_) => EXT_ALPN,
            ClientExtension::SignedCertificateTimestamp => EXT_SCT,
            ClientExtension::Padding(_) => EXT_PADDING,
            ClientExtension::ExtendedMasterSecretRequest => EXT_EXTENDED_MASTER_SECRET,
            ClientExtension::CompressCertificate(_) => EXT_COMPRESS_CERTIFICATE,
            ClientExtension::SessionTicketRequest => EXT_SESSION_TICKET,
            ClientExtension::SupportedVersions(_) => EXT_SUPPORTED_VERSIONS,
            ClientExtension::PresharedKeyModes(_) => EXT_PSK_KEY_EXCHANGE_MODES,
            ClientExtension::KeyShare(_) => EXT_KEY_SHARE,
            ClientExtension::RenegotiationInfo => EXT_RENEGOTIATION_INFO,
            ClientExtension::Unknown(t, _) => *t,
        }
    }

    /// A copy with the same value.
    pub fn duplicate(&self) -> (r: ClientExtension)
        ensures
            r@ == self@,
    {
        match self {
            ClientExtension::ServerName(p) => ClientExtension::ServerName(copy_u8s(p)),
            ClientExtension::StatusRequest => ClientExtension::StatusRequest,
            ClientExtension::NamedGroups(g) => ClientExtension::NamedGroups(copy_u16s(g)),
            ClientExtension::EcPointFormats(f) => ClientExtension::EcPointFormats(copy_u8s(f)),
            ClientExtension::SignatureAlgorithms(s) => ClientExtension::SignatureAlgorithms(
                copy_u16s(s),
            ),
            ClientExtension::Protocols(p) => ClientExtension::Protocols(copy_names(p)),
            ClientExtension::SignedCertificateTimestamp => ClientExtension::SignedCertificateTimestamp,
            ClientExtension::Padding(p) => ClientExtension::Padding(copy_u8s(p)),
            ClientExtension::ExtendedMasterSecretRequest => ClientExtension::ExtendedMasterSecretRequest,
            ClientExtension::CompressCertificate(c) => ClientExtension::CompressCertificate(
                copy_u16s(c),
            ),
            ClientExtension::SessionTicketRequest => ClientExtension::SessionTicketRequest,
            ClientExtension::SupportedVersions(v) => ClientExtension::SupportedVersions(
                copy_u16s(v),
            ),
            ClientExtension::PresharedKeyModes(m) => ClientExtension::PresharedKeyModes(
                copy_u8s(m),
            ),
            ClientExtension::KeyShare(p) => ClientExtension::KeyShare(copy_u8s(p)),
            ClientExtension::RenegotiationInfo => ClientExtension::RenegotiationInfo,
            ClientExtension::Unknown(t, p) => ClientExtension::Unknown(*t, copy_u8s(p)),
        }
    }

    /// An extension of the given type with the given raw payload.
    pub fn unknown(typ: u16, payload: Vec<u8>) -> (r: ClientExtension)
        ensures
            r@ == ExtModel::Unknown(typ, payload@),
    {
        ClientExtension::Unknown(typ, payload)
    }

    /// A padding extension with the given zero bytes.
    pub fn padding(payload: Vec<u8>) -> (r: ClientExtension)
        ensures
            r@ == ExtModel::Padding(payload@),
    {
        ClientExtension::Padding(payload)
    }
}

} // verus!
