//! Extension chunks, the side configuration, and the descriptor parser.
use crate::extension::{
    copy_names, copy_u16s, names_view, ClientExtension, CompressCertificateOptions, ExtModel, EC_POINT_UNCOMPRESSED, EXT_ALPN, EXT_COMPRESS_CERTIFICATE, EXT_EC_POINT_FORMATS,
    EXT_NAMED_GROUPS, EXT_SIGNATURE_ALGORITHMS, EXT_SUPPORTED_VERSIONS,
    EXT_EXTENDED_MASTER_SECRET, EXT_KEY_SHARE, EXT_PADDING, EXT_PSK_KEY_EXCHANGE_MODES,
    EXT_RENEGOTIATION_INFO, EXT_SCT, EXT_SERVER_NAME, EXT_SESSION_TICKET, EXT_STATUS_REQUEST,
    PSK_DHE_KE,
};
use crate::text::{parse_u16, parse_u16_spec, split_on, split_str, strs_view};
use crate::JAOverride;
use crate::PlanModel;
use std::collections::HashMap;
use vstd::prelude::*;

verus! {

broadcast use vstd::std_specs::hash::group_hash_axioms;

/// One slot of a plan's extension sequence.
#[derive(Debug, Clone)]
pub enum ExtensionChunk {
    /// A reserved-value marker, drawn afresh at each emission.
    Grease,
    /// The engine's own server-name extension.
    Sni,
    /// The engine's own key-share extension.
    KeyShare,
    /// Named groups, prefixed with a reserved value at emission.
    GreasedNameGroups(Vec<u16>),
    /// Supported versions, prefixed with a reserved value at emission.
    GreasedTLSVersion(Vec<u16>),
    /// An extension emitted as it stands.
    Extension(ClientExtension),
}

/// The mathematical value of an `ExtensionChunk`.
pub enum ChunkModel {
    Grease,
    Sni,
    KeyShare,
    GreasedNameGroups(Seq<u16>),
    GreasedTLSVersion(Seq<u16>),
    Extension(ExtModel),
}

impl View for ExtensionChunk {
    type V = ChunkModel;

    open spec fn view(&self) -> ChunkModel {
        match self {
            ExtensionChunk::Grease => ChunkModel::Grease,
            ExtensionChunk::Sni => ChunkModel::Sni,
            ExtensionChunk::KeyShare => ChunkModel::KeyShare,
            ExtensionChunk::GreasedNameGroups(g) => ChunkModel::GreasedNameGroups(g@),
            ExtensionChunk::GreasedTLSVersion(v) => ChunkModel::GreasedTLSVersion(v@),
            ExtensionChunk::Extension(e) => ChunkModel::Extension(e@),
        }
    }
}

/// The views of a sequence of chunks.
pub open spec fn chunks_view(s: Seq<ExtensionChunk>) -> Seq<ChunkModel> {
    s.map_values(|c: ExtensionChunk| c@)
}

impl ChunkModel {
    /// The fixed padding extension (any literal of the padding type).
    pub open spec fn is_padding(self) -> bool {
        match self {
            ChunkModel::Extension(e) => e.ext_type() == EXT_PADDING,
            _ => false,
        }
    }
}

/// Why a descriptor could not be turned into a plan.
#[derive(Debug, Clone, Copy)]
pub enum FailReason<'a> {
    /// The descriptor does not have five comma-separated fields.
    Part,
    CipherSuite(&'a str),
    NamedGroup(&'a str),
    ExtensionType(&'a str),
    MissingTLSVersion,
    MissingALPN,
    MissingSignatureAlgorithms,
    MissingCompressCertificate,
}

/// The mathematical value of a `FailReason`.
pub enum FailModel {
    Part,
    CipherSuite(Seq<char>),
    NamedGroup(Seq<char>),
    ExtensionType(Seq<char>),
    MissingTLSVersion,
    MissingALPN,
    MissingSignatureAlgorithms,
    MissingCompressCertificate,
}

impl<'a> View for FailReason<'a> {
    type V = FailModel;

    open spec fn view(&self) -> FailModel {
        match self {
            FailReason::Part => FailModel::Part,
            FailReason::CipherSuite(t) => FailModel::CipherSuite(t@),
            FailReason::NamedGroup(t) => FailModel::NamedGroup(t@),
            FailReason::ExtensionType(t) => FailModel::ExtensionType(t@),
            FailReason::MissingTLSVersion => FailModel::MissingTLSVersion,
            FailReason::MissingALPN => FailModel::MissingALPN,
            FailReason::MissingSignatureAlgorithms => FailModel::MissingSignatureAlgorithms,
            FailReason::MissingCompressCertificate => FailModel::MissingCompressCertificate,
        }
    }
}

/// The name of a failure's variant.
pub open spec fn fail_name(e: FailModel) -> Seq<char> {
    match e {
        FailModel::Part => "Part"@,
        FailModel::CipherSuite(_) => "CipherSuite"@,
        FailModel::NamedGroup(_) => "NamedGroup"@,
        FailModel::ExtensionType(_) => "ExtensionType"@,
        FailModel::MissingTLSVersion => "MissingTLSVersion"@,
        FailModel::MissingALPN => "MissingALPN"@,
        FailModel::MissingSignatureAlgorithms => "MissingSignatureAlgorithms"@,
        FailModel::MissingCompressCertificate => "MissingCompressCertificate"@,
    }
}

/// A failure as text: the variant's name, then the offending token in
/// quotes and parentheses where there is one.
pub open spec fn fail_text(e: FailModel) -> Seq<char> {
    match e {
        FailModel::CipherSuite(t) => fail_name(e) + seq!['(', '"'] + t + seq!['"', ')'],
        FailModel::NamedGroup(t) => fail_name(e) + seq!['(', '"'] + t + seq!['"', ')'],
        FailModel::ExtensionType(t) => fail_name(e) + seq!['(', '"'] + t + seq!['"', ')'],
        _ => fail_name(e),
    }
}

impl<'a> FailReason<'a> {
    /// The failure as text, for diagnostics.
    pub fn describe(&self) -> (r: String)
        ensures
            r@ == fail_text(self@),
    {
        let mut out: Vec<char> = Vec::new();
        let name: &str = match self {
            FailReason::Part => "Part",
            FailReason::CipherSuite(_) => "CipherSuite",
            FailReason::NamedGroup(_) => "NamedGroup",
            FailReason::ExtensionType(_) => "ExtensionType",
            FailReason::MissingTLSVersion => "MissingTLSVersion",
            FailReason::MissingALPN => "MissingALPN",
            FailReason::MissingSignatureAlgorithms => "MissingSignatureAlgorithms",
            FailReason::MissingCompressCertificate => "MissingCompressCertificate",
        };
        assert(name@ == fail_name(self@));
        push_str(&mut out, name);
        match self {
            FailReason::CipherSuite(t) | FailReason::NamedGroup(t) | FailReason::ExtensionType(t) => {
                out.push('(');
                out.push('"');
                push_str(&mut out, t);
                out.push('"');
                out.push(')');
            },
            _ => {},
        }
        assert(out@ =~= fail_text(self@));
        crate::text::string_of(&out)
    }
}

fn push_str(out: &mut Vec<char>, s: &str)
    ensures
        final(out)@ == old(out)@ + s@,
{
    let n = s.unicode_len();
    let mut i: usize = 0;
    while i < n
        invariant
            n == s@.len(),
            i <= n,
            out@ == old(out)@ + s@.subrange(0, i as int),
        decreases n - i,
    {
        out.push(s.get_char(i));
        i += 1;
        assert(out@ =~= old(out)@ + s@.subrange(0, i as int));
    }
    assert(s@.subrange(0, n as int) =~= s@);
}

/// The side configuration: what a descriptor cannot carry.
pub struct JAOverrideBuilder {
    pub tls_versions: Option<Vec<u16>>,
    pub alpn: Option<Vec<Vec<u8>>>,
    pub signature_algorithms: Option<Vec<u16>>,
    pub compress_certificate: Option<CompressCertificateOptions>,
    /// Insert reserved-value (GREASE) markers.
    pub grease: bool,
    /// Literal extensions for extension types that are not otherwise recognized.
    pub unknown_extensions: HashMap<u16, ClientExtension>,
    pub shuffle_extension: bool,
}

impl Default for JAOverrideBuilder {
    fn default() -> (r: JAOverrideBuilder)
        ensures
            r.tls_versions is None,
            r.alpn is None,
            r.signature_algorithms is None,
            r.compress_certificate is None,
            !r.grease,
            r.unknown_extensions@ == Map::<u16, ClientExtension>::empty(),
            !r.shuffle_extension,
    {
        JAOverrideBuilder {
            tls_versions: None,
            alpn: None,
            signature_algorithms: None,
            compress_certificate: None,
            grease: false,
            unknown_extensions: HashMap::new(),
            shuffle_extension: false,
        }
    }
}

/// The numbers of a dash-separated field, or the first token that is not one.
pub open spec fn parse_list(toks: Seq<Seq<char>>) -> Result<Seq<u16>, Seq<char>>
    decreases toks.len(),
{
    if toks.len() == 0 {
        Ok(Seq::<u16>::empty())
    } else {
        match parse_list(toks.drop_last()) {
            Err(t) => Err(t),
            Ok(l) => match parse_u16_spec(toks.last()) {
                None => Err(toks.last()),
                Some(v) => Ok(l.push(v)),
            },
        }
    }
}

proof fn lemma_list_err_sticks(toks: Seq<Seq<char>>, i: int, t: Seq<char>)
    requires
        0 <= i <= toks.len(),
        parse_list(toks.subrange(0, i)) == Err::<Seq<u16>, Seq<char>>(t),
    ensures
        parse_list(toks) == Err::<Seq<u16>, Seq<char>>(t),
    decreases toks.len(),
{
    if i < toks.len() {
        assert(toks.drop_last().subrange(0, i) =~= toks.subrange(0, i));
        lemma_list_err_sticks(toks.drop_last(), i, t);
    } else {
        assert(toks.subrange(0, i) =~= toks);
    }
}

/// The chunk that an extension type stands for when it needs no side
/// configuration.
pub open spec fn convert_extension_spec(t: u16) -> Option<ChunkModel> {
    if t == EXT_SERVER_NAME {
        Some(ChunkModel::Sni)
    } else if t == EXT_KEY_SHARE {
        Some(ChunkModel::KeyShare)
    } else if t == EXT_EXTENDED_MASTER_SECRET {
        Some(ChunkModel::Extension(ExtModel::ExtendedMasterSecretRequest))
    } else if t == EXT_RENEGOTIATION_INFO {
        Some(ChunkModel::Extension(ExtModel::RenegotiationInfo))
    } else if t == EXT_STATUS_REQUEST {
        Some(ChunkModel::Extension(ExtModel::StatusRequest))
    } else if t == EXT_SCT {
        Some(ChunkModel::Extension(ExtModel::SignedCertificateTimestamp))
    } else if t == EXT_PADDING {
        Some(ChunkModel::Extension(ExtModel::Padding(Seq::<u8>::empty())))
    } else if t == EXT_PSK_KEY_EXCHANGE_MODES {
        Some(ChunkModel::Extension(ExtModel::PresharedKeyModes(seq![PSK_DHE_KE])))
    } else if t == EXT_SESSION_TICKET {
        Some(ChunkModel::Extension(ExtModel::SessionTicketRequest))
    } else if t == EXT_EC_POINT_FORMATS {
        Some(ChunkModel::Extension(ExtModel::EcPointFormats(seq![EC_POINT_UNCOMPRESSED])))
    } else {
        None
    }
}

/// The fixed chunk for an extension type that needs no side configuration.
pub fn convert_extension(t: u16) -> (r: Option<ExtensionChunk>)
    ensures
        match r {
            Some(c) => convert_extension_spec(t) == Some(c@),
            None => convert_extension_spec(t) is None,
        },
{
    if t == EXT_SERVER_NAME {
        Some(ExtensionChunk::Sni)
    } else if t == EXT_KEY_SHARE {
        Some(ExtensionChunk::KeyShare)
    } else if t == EXT_EXTENDED_MASTER_SECRET {
        Some(ExtensionChunk::Extension(ClientExtension::ExtendedMasterSecretRequest))
    } else if t == EXT_RENEGOTIATION_INFO {
        Some(ExtensionChunk::Extension(ClientExtension::RenegotiationInfo))
    } else if t == EXT_STATUS_REQUEST {
        Some(ExtensionChunk::Extension(ClientExtension::StatusRequest))
    } else if t == EXT_SCT {
        Some(ExtensionChunk::Extension(ClientExtension::SignedCertificateTimestamp))
    } else if t == EXT_PADDING {
        Some(ExtensionChunk::Extension(ClientExtension::padding(Vec::new())))
    } else if t == EXT_PSK_KEY_EXCHANGE_MODES {
        let m = vec![PSK_DHE_KE];
        assert(m@ =~= seq![PSK_DHE_KE]);
        let r = ExtensionChunk::Extension(ClientExtension::PresharedKeyModes(m));
        assert(r@ == ChunkModel::Extension(ExtModel::PresharedKeyModes(seq![PSK_DHE_KE])));
        Some(r)
    } else if t == EXT_SESSION_TICKET {
        Some(ExtensionChunk::Extension(ClientExtension::SessionTicketRequest))
    } else if t == EXT_EC_POINT_FORMATS {
        let f = vec![EC_POINT_UNCOMPRESSED];
        assert(f@ =~= seq![EC_POINT_UNCOMPRESSED]);
        let r = ExtensionChunk::Extension(ClientExtension::EcPointFormats(f));
        assert(r@ == ChunkModel::Extension(ExtModel::EcPointFormats(seq![EC_POINT_UNCOMPRESSED])));
        Some(r)
    } else {
        None
    }
}

/// Parses each token of a dash-separated field as a 16-bit number.
pub fn parse_numbers<'a>(toks: &Vec<&'a str>) -> (r: Result<Vec<u16>, &'a str>)
    ensures
        match r {
            Ok(v) => parse_list(strs_view(toks@)) == Ok::<Seq<u16>, Seq<char>>(v@),
            Err(t) => parse_list(strs_view(toks@)) == Err::<Seq<u16>, Seq<char>>(t@),
        },
{
    let mut v: Vec<u16> = Vec::new();
    let mut i: usize = 0;
    assert(strs_view(toks@).subrange(0, 0) =~= Seq::<Seq<char>>::empty());
    while i < toks.len()
        invariant
            i <= toks@.len(),
            parse_list(strs_view(toks@).subrange(0, i as int)) == Ok::<Seq<u16>, Seq<char>>(v@),
        decreases toks@.len() - i,
    {
        let t = toks[i];
        let ghost cur = strs_view(toks@).subrange(0, i as int + 1);
        assert(cur.drop_last() =~= strs_view(toks@).subrange(0, i as int));
        assert(cur.last() == t@);
        match parse_u16(t) {
            Some(x) => {
                v.push(x);
            },
            None => {
                proof {
                    lemma_list_err_sticks(strs_view(toks@), i as int + 1, t@);
                }
                return Err(t);
            },
        }
        i += 1;
    }
    assert(strs_view(toks@).subrange(0, toks@.len() as int) =~= strs_view(toks@));
    Ok(v)
}

impl JAOverrideBuilder {
    /// The chunk for one extension token, given the plan's named groups.
    pub open spec fn chunk_spec(&self, tok: Seq<char>, groups: Seq<u16>) -> Result<
        ChunkModel,
        FailModel,
    > {
        match parse_u16_spec(tok) {
            None => Err(FailModel::ExtensionType(tok)),
            Some(t) => if t == EXT_NAMED_GROUPS {
                if self.grease {
                    Ok(ChunkModel::GreasedNameGroups(groups))
                } else {
                    Ok(ChunkModel::Extension(ExtModel::NamedGroups(groups)))
                }
            } else if t == EXT_SUPPORTED_VERSIONS {
                match self.tls_versions {
                    None => Err(FailModel::MissingTLSVersion),
                    Some(v) => if self.grease {
                        Ok(ChunkModel::GreasedTLSVersion(v@))
                    } else {
                        Ok(ChunkModel::Extension(ExtModel::SupportedVersions(v@)))
                    },
                }
            } else if t == EXT_ALPN {
                match self.alpn {
                    None => Err(FailModel::MissingALPN),
                    Some(p) => Ok(ChunkModel::Extension(ExtModel::Protocols(names_view(p@)))),
                }
            } else if t == EXT_SIGNATURE_ALGORITHMS {
                match self.signature_algorithms {
                    None => Err(FailModel::MissingSignatureAlgorithms),
                    Some(a) => Ok(ChunkModel::Extension(ExtModel::SignatureAlgorithms(a@))),
                }
            } else if t == EXT_COMPRESS_CERTIFICATE {
                match self.compress_certificate {
                    None => Err(FailModel::MissingCompressCertificate),
                    Some(c) => Ok(
                        ChunkModel::Extension(ExtModel::CompressCertificate(seq![c.spec_code()])),
                    ),
                }
            } else {
                match convert_extension_spec(t) {
                    Some(c) => Ok(c),
                    None => if self.unknown_extensions@.contains_key(t) {
                        Ok(ChunkModel::Extension(self.unknown_extensions@[t]@))
                    } else {
                        Err(FailModel::ExtensionType(tok))
                    },
                }
            },
        }
    }

    /// The chunks for the extension tokens in order, or the first failure.
    pub open spec fn chunks_spec(&self, toks: Seq<Seq<char>>, groups: Seq<u16>) -> Result<
        Seq<ChunkModel>,
        FailModel,
    >
        decreases toks.len(),
    {
        if toks.len() == 0 {
            Ok(Seq::<ChunkModel>::empty())
        } else {
            match self.chunks_spec(toks.drop_last(), groups) {
                Err(e) => Err(e),
                Ok(l) => match self.chunk_spec(toks.last(), groups) {
                    Err(e) => Err(e),
                    Ok(c) => Ok(l.push(c)),
                },
            }
        }
    }

    pub proof fn lemma_chunks_err_sticks(&self, toks: Seq<Seq<char>>, groups: Seq<u16>, i: int, e: FailModel)
        requires
            0 <= i <= toks.len(),
            self.chunks_spec(toks.subrange(0, i), groups) == Err::<Seq<ChunkModel>, FailModel>(e),
        ensures
            self.chunks_spec(toks, groups) == Err::<Seq<ChunkModel>, FailModel>(e),
        decreases toks.len(),
    {
        if i < toks.len() {
            assert(toks.drop_last().subrange(0, i) =~= toks.subrange(0, i));
            self.lemma_chunks_err_sticks(toks.drop_last(), groups, i, e);
        } else {
            assert(toks.subrange(0, i) =~= toks);
        }
    }

    /// With noise on: a marker first, and a marker last, or just before a
    /// padding extension that ends the sequence.
    pub open spec fn with_noise(&self, body: Seq<ChunkModel>) -> Seq<ChunkModel> {
        if !self.grease {
            body
        } else {
            let b = seq![ChunkModel::Grease] + body;
            if b.last().is_padding() {
                b.insert(b.len() - 1, ChunkModel::Grease)
            } else {
                b.push(ChunkModel::Grease)
            }
        }
    }

    /// The plan that a descriptor denotes under this configuration, or why
    /// there is none.
    pub open spec fn plan_spec(&self, s: Seq<char>) -> Result<PlanModel, FailModel> {
        let parts = split_on(s, ',');
        if parts.len() != 5 {
            Err(FailModel::Part)
        } else {
            match parse_list(split_on(parts[1], '-')) {
                Err(t) => Err(FailModel::CipherSuite(t)),
                Ok(cs) => match parse_list(split_on(parts[3], '-')) {
                    Err(t) => Err(FailModel::NamedGroup(t)),
                    Ok(gs) => match self.chunks_spec(split_on(parts[2], '-'), gs) {
                        Err(e) => Err(e),
                        Ok(body) => Ok(
                            PlanModel {
                                cipher_suites: cs,
                                extensions: self.with_noise(body),
                                shuffle_extension: self.shuffle_extension,
                            },
                        ),
                    },
                },
            }
        }
    }

    /// The chunk for one extension token.
    fn chunk_for<'a>(&self, tok: &'a str, groups: &Vec<u16>) -> (r: Result<
        ExtensionChunk,
        FailReason<'a>,
    >)
        ensures
            match r {
                Ok(c) => self.chunk_spec(tok@, groups@) == Ok::<ChunkModel, FailModel>(c@),
                Err(e) => self.chunk_spec(tok@, groups@) == Err::<ChunkModel, FailModel>(e@),
            },
    {
        let t = match parse_u16(tok) {
            Some(t) => t,
            None => return Err(FailReason::ExtensionType(tok)),
        };
        if t == EXT_NAMED_GROUPS {
            if self.grease {
                Ok(ExtensionChunk::GreasedNameGroups(copy_u16s(groups)))
            } else {
                Ok(ExtensionChunk::Extension(ClientExtension::NamedGroups(copy_u16s(groups))))
            }
        } else if t == EXT_SUPPORTED_VERSIONS {
            match &self.tls_versions {
                None => Err(FailReason::MissingTLSVersion),
                Some(v) => if self.grease {
                    Ok(ExtensionChunk::GreasedTLSVersion(copy_u16s(v)))
                } else {
                    Ok(ExtensionChunk::Extension(ClientExtension::SupportedVersions(copy_u16s(v))))
                },
            }
        } else if t == EXT_ALPN {
            match &self.alpn {
                None => Err(FailReason::MissingALPN),
                Some(p) => Ok(ExtensionChunk::Extension(ClientExtension::Protocols(copy_names(p)))),
            }
        } else if t == EXT_SIGNATURE_ALGORITHMS {
            match &self.signature_algorithms {
                None => Err(FailReason::MissingSignatureAlgorithms),
                Some(a) => Ok(
                    ExtensionChunk::Extension(ClientExtension::SignatureAlgorithms(copy_u16s(a))),
                ),
            }
        } else if t == EXT_COMPRESS_CERTIFICATE {
            match &self.compress_certificate {
                None => Err(FailReason::MissingCompressCertificate),
                Some(c) => {
                    let codes = vec![c.code()];
                    assert(codes@ =~= seq![c.spec_code()]);
                    Ok(ExtensionChunk::Extension(ClientExtension::CompressCertificate(codes)))
                },
            }
        } else {
            match convert_extension(t) {
                Some(c) => Ok(c),
                None => match self.unknown_extensions.get(&t) {
                    Some(e) => Ok(ExtensionChunk::Extension(e.duplicate())),
                    None => Err(FailReason::ExtensionType(tok)),
                },
            }
        }
    }

    /// Parses a descriptor `"<version>,<ciphers>,<extensions>,<groups>,<formats>"`
    /// into a plan, taking from this configuration what the descriptor cannot carry.
    pub fn with_ja3_full<'a>(&self, ja3: &'a str) -> (r: Result<JAOverride, FailReason<'a>>)
        ensures
            match r {
                Ok(o) => self.plan_spec(ja3@) == Ok::<PlanModel, FailModel>(o@),
                Err(e) => self.plan_spec(ja3@) == Err::<PlanModel, FailModel>(e@),
            },
    {
        let parts = split_str(ja3, ',');
        if parts.len() != 5 {
            return Err(FailReason::Part);
        }
        let ghost ps = split_on(ja3@, ',');
        assert(parts[1]@ == ps[1] && parts[2]@ == ps[2] && parts[3]@ == ps[3]);
        let cipher_suites = match parse_numbers(&split_str(parts[1], '-')) {
            Ok(v) => v,
            Err(t) => return Err(FailReason::CipherSuite(t)),
        };
        let named_groups = match parse_numbers(&split_str(parts[3], '-')) {
            Ok(v) => v,
            Err(t) => return Err(FailReason::NamedGroup(t)),
        };
        let toks = split_str(parts[2], '-');
        let ghost tv = strs_view(toks@);
        let mut body: Vec<ExtensionChunk> = Vec::new();
        let mut i: usize = 0;
        assert(tv.subrange(0, 0) =~= Seq::<Seq<char>>::empty());
        assert(chunks_view(body@) =~= Seq::<ChunkModel>::empty());
        while i < toks.len()
            invariant
                i <= toks@.len(),
                tv == strs_view(toks@),
                tv == split_on(ps[2], '-'),
                ps == split_on(ja3@, ','),
                ps.len() == 5,
                parse_list(split_on(ps[1], '-')) == Ok::<Seq<u16>, Seq<char>>(cipher_suites@),
                parse_list(split_on(ps[3], '-')) == Ok::<Seq<u16>, Seq<char>>(named_groups@),
                self.chunks_spec(tv.subrange(0, i as int), named_groups@) == Ok::<
                    Seq<ChunkModel>,
                    FailModel,
                >(chunks_view(body@)),
            decreases toks@.len() - i,
        {
            let tok = toks[i];
            let ghost cur = tv.subrange(0, i as int + 1);
            assert(cur.drop_last() =~= tv.subrange(0, i as int));
            assert(cur.last() == tok@);
            match self.chunk_for(tok, &named_groups) {
                Ok(c) => {
                    proof {
                        let bv = body@;
                        assert(chunks_view(bv.push(c)) =~= chunks_view(bv).push(c@));
                    }
                    body.push(c);
                },
                Err(e) => {
                    proof {
                        self.lemma_chunks_err_sticks(tv, named_groups@, i as int + 1, e@);
                    }
                    return Err(e);
                },
            }
            i += 1;
        }
        assert(tv.subrange(0, toks@.len() as int) =~= tv);
        let ghost bodyv = chunks_view(body@);
        let extensions = if self.grease {
            let mut exts: Vec<ExtensionChunk> = Vec::new();
            exts.push(ExtensionChunk::Grease);
            exts.append(&mut body);
            let ghost b = seq![ChunkModel::Grease] + bodyv;
            assert(chunks_view(exts@) =~= b);
            let n = exts.len();
            let pad = match &exts[n - 1] {
                ExtensionChunk::Extension(e) => e.get_ext_type() == EXT_PADDING,
                _ => false,
            };
            assert(pad == b.last().is_padding());
            if pad {
                exts.insert(n - 1, ExtensionChunk::Grease);
                assert(chunks_view(exts@) =~= b.insert(b.len() - 1, ChunkModel::Grease));
            } else {
                exts.push(ExtensionChunk::Grease);
                assert(chunks_view(exts@) =~= b.push(ChunkModel::Grease));
            }
            exts
        } else {
            body
        };
        Ok(JAOverride { cipher_suites, extensions, shuffle_extension: self.shuffle_extension })
    }
}

/// With noise on, a padding extension that ends the extension tokens stays
/// last: the trailing marker goes just before it, and one marker leads.
pub proof fn lemma_padding_anchored(b: &JAOverrideBuilder, body: Seq<ChunkModel>)
    requires
        b.grease,
        body.len() > 0,
        body.last().is_padding(),
    ensures
        b.with_noise(body) == seq![ChunkModel::Grease] + body.drop_last() + seq![
            ChunkModel::Grease,
            body.last(),
        ],
{
    let e = seq![ChunkModel::Grease] + body;
    assert(e.last() == body.last());
    assert(e.insert(e.len() - 1, ChunkModel::Grease) =~= seq![ChunkModel::Grease]
        + body.drop_last() + seq![ChunkModel::Grease, body.last()]);
}

/// With noise on and no padding at the end, the markers lead and trail.
pub proof fn lemma_noise_at_both_ends(b: &JAOverrideBuilder, body: Seq<ChunkModel>)
    requires
        b.grease,
        body.len() == 0 || !body.last().is_padding(),
    ensures
        b.with_noise(body) == seq![ChunkModel::Grease] + body + seq![ChunkModel::Grease],
{
    let e = seq![ChunkModel::Grease] + body;
    if body.len() > 0 {
        assert(e.last() == body.last());
    }
    assert(e.push(ChunkModel::Grease) =~= seq![ChunkModel::Grease] + body + seq![
        ChunkModel::Grease,
    ]);
}

/// A supported-versions token with no version list configured fails with
/// the missing-version error, not a token error, once the fields before it
/// and the extension tokens before it are fine.
pub proof fn lemma_missing_versions(b: &JAOverrideBuilder, s: Seq<char>, k: int)
    requires
        b.tls_versions is None,
        split_on(s, ',').len() == 5,
        parse_list(split_on(split_on(s, ',')[1], '-')) is Ok,
        parse_list(split_on(split_on(s, ',')[3], '-')) matches Ok(gs) && b.chunks_spec(
            split_on(split_on(s, ',')[2], '-').subrange(0, k),
            gs,
        ) is Ok,
        0 <= k < split_on(split_on(s, ',')[2], '-').len(),
        parse_u16_spec(split_on(split_on(s, ',')[2], '-')[k]) == Some(EXT_SUPPORTED_VERSIONS),
    ensures
        b.plan_spec(s) == Err::<PlanModel, FailModel>(FailModel::MissingTLSVersion),
{
    let toks = split_on(split_on(s, ',')[2], '-');
    let gs = parse_list(split_on(split_on(s, ',')[3], '-'))->Ok_0;
    let cur = toks.subrange(0, k + 1);
    assert(cur.drop_last() =~= toks.subrange(0, k));
    assert(cur.last() == toks[k]);
    b.lemma_chunks_err_sticks(toks, gs, k + 1, FailModel::MissingTLSVersion);
}

impl JAOverrideBuilder {
    /// Turns reserved-value markers on or off.
    pub fn with_grease(&mut self, grease: bool) -> (r: &mut Self)
        ensures
            r.grease == grease,
            r.tls_versions == old(self).tls_versions,
            r.alpn == old(self).alpn,
            r.signature_algorithms == old(self).signature_algorithms,
            r.compress_certificate == old(self).compress_certificate,
            r.unknown_extensions == old(self).unknown_extensions,
            r.shuffle_extension == old(self).shuffle_extension,
            *final(self) == *final(r),
    {
        self.grease = grease;
        self
    }

    /// Turns the shuffle of the interior extensions on or off.
    pub fn with_shuffle_extension(&mut self, shuffle_extension: bool) -> (r: &mut Self)
        ensures
            r.shuffle_extension == shuffle_extension,
            r.tls_versions == old(self).tls_versions,
            r.alpn == old(self).alpn,
            r.signature_algorithms == old(self).signature_algorithms,
            r.compress_certificate == old(self).compress_certificate,
            r.grease == old(self).grease,
            r.unknown_extensions == old(self).unknown_extensions,
            *final(self) == *final(r),
    {
        self.shuffle_extension = shuffle_extension;
        self
    }

    /// Sets the protocol versions of the supported-versions extension.
    pub fn with_tls_versions(&mut self, tls_versions: Vec<u16>) -> (r: &mut Self)
        ensures
            r.tls_versions == Some(tls_versions),
            r.alpn == old(self).alpn,
            r.signature_algorithms == old(self).signature_algorithms,
            r.compress_certificate == old(self).compress_certificate,
            r.grease == old(self).grease,
            r.unknown_extensions == old(self).unknown_extensions,
            r.shuffle_extension == old(self).shuffle_extension,
            *final(self) == *final(r),
    {
        self.tls_versions = Some(tls_versions);
        self
    }

    /// Sets the ALPN protocol names.
    pub fn with_alpn(&mut self, alpn: Vec<Vec<u8>>) -> (r: &mut Self)
        ensures
            r.alpn == Some(alpn),
            r.tls_versions == old(self).tls_versions,
            r.signature_algorithms == old(self).signature_algorithms,
            r.compress_certificate == old(self).compress_certificate,
            r.grease == old(self).grease,
            r.unknown_extensions == old(self).unknown_extensions,
            r.shuffle_extension == old(self).shuffle_extension,
            *final(self) == *final(r),
    {
        self.alpn = Some(alpn);
        self
    }

    /// Sets the signature algorithms.
    pub fn with_signature_algorithms(&mut self, signature_algorithms: Vec<u16>) -> (r: &mut Self)
        ensures
            r.signature_algorithms == Some(signature_algorithms),
            r.tls_versions == old(self).tls_versions,
            r.alpn == old(self).alpn,
            r.compress_certificate == old(self).compress_certificate,
            r.grease == old(self).grease,
            r.unknown_extensions == old(self).unknown_extensions,
            r.shuffle_extension == old(self).shuffle_extension,
            *final(self) == *final(r),
    {
        self.signature_algorithms = Some(signature_algorithms);
        self
    }

    /// Sets the certificate compression algorithm.
    pub fn with_compress_certificate(&mut self, compress_certificate: CompressCertificateOptions) -> (r: &mut Self)
        ensures
            r.compress_certificate == Some(compress_certificate),
            r.tls_versions == old(self).tls_versions,
            r.alpn == old(self).alpn,
            r.signature_algorithms == old(self).signature_algorithms,
            r.grease == old(self).grease,
            r.unknown_extensions == old(self).unknown_extensions,
            r.shuffle_extension == old(self).shuffle_extension,
            *final(self) == *final(r),
    {
        self.compress_certificate = Some(compress_certificate);
        self
    }
}

} // verus!
