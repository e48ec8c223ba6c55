use ja_override::builder::{ExtensionChunk, FailReason, JAOverrideBuilder};
use ja_override::engine::{grease_from_byte, shuffle_range};
use ja_override::extension::{ClientExtension, CompressCertificateOptions, TLS_V1_2, TLS_V1_3};
use ja_override::extensions::{ech_payload, grease_ech, EXT_ENCRYPTED_CLIENT_HELLO};
use ja_override::JAOverride;

// ECDSA_NISTP256_SHA256, RSA_PSS_SHA256, RSA_PKCS1_SHA256, ECDSA_NISTP384_SHA384,
// RSA_PSS_SHA384, RSA_PKCS1_SHA384, RSA_PSS_SHA512, RSA_PKCS1_SHA512
fn signature_schemes() -> Vec<u16> {
    vec![0x0403, 0x0804, 0x0401, 0x0503, 0x0805, 0x0501, 0x0806, 0x0601]
}

fn is_grease(v: u16) -> bool {
    (v & 0x0f0f) == 0x0a0a && (v >> 8) == (v & 0xff)
}

fn is_marker(e: &ClientExtension) -> bool {
    matches!(e, ClientExtension::Unknown(t, p) if is_grease(*t) && p.is_empty())
}

fn configured(grease: bool) -> JAOverrideBuilder {
    let mut builder = JAOverrideBuilder::default();
    builder
        .with_grease(grease)
        .with_signature_algorithms(signature_schemes())
        .with_tls_versions(vec![TLS_V1_3, TLS_V1_2])
        .with_alpn(vec!["http/1.1".as_bytes().to_vec()])
        .with_compress_certificate(CompressCertificateOptions::Brotli);
    builder
}

#[test]
fn test_ja3_full() {
    let ja3_full = "771,4865-4866-4867-49195-49199-49196-49200-52393-52392-49171-49172-156-157-47-53,0-23-65281-10-11-35-16-5-13-18-51-45-43-27-17513-21,29-23-24,0";
    let mut builder = configured(true);
    builder.unknown_extensions.insert(
        17513,
        ClientExtension::unknown(17513, vec![0x0, 0x3, 0x2, 68, 32]),
    );
    let overrider = builder.with_ja3_full(ja3_full).unwrap();
    assert_eq!(overrider.ja3_full(), ja3_full);
    assert_eq!(overrider.ja3_hash(), "cd08e31494f9531f560d64c695473da9");
    // Server name and ALPN count among the extensions and enter the hash.
    assert_eq!(overrider.ja4_hash(), "t13d1516h1_8daaf6152771_a7826127fcf8");
}

#[test]
fn end_to_end_example() {
    let d = "771,4865-4866-4867,0-23-65281-10-11-13-43,29-23-24,0";
    let plan = configured(false).with_ja3_full(d).unwrap();
    assert_eq!(plan.cipher_suites, vec![4865, 4866, 4867]);
    assert_eq!(plan.extensions.len(), 7);
    assert_eq!(plan.ja3_full(), d);
    assert_eq!(plan.ja3_hash(), "a4154d5270ba4a4f628df343cc2b8f96");
    // No ALPN extension in the descriptor, so the ALPN tag is the placeholder.
    assert_eq!(plan.ja4_hash(), "t13d3700_55b375c5d22e_f13a0b2eddc2");
    let with_alpn = "771,4865-4866-4867,0-23-65281-10-11-13-43-16,29-23-24,0";
    let plan = configured(false).with_ja3_full(with_alpn).unwrap();
    assert_eq!(plan.ja4_hash(), "t13d38h1_55b375c5d22e_2dd1c0f9636e");
}

#[test]
fn round_trip_without_noise() {
    let d = "771,4865-+4866-04867,0-23-65281-10-11-35-16-5-13-18-51-45-43-27-21,29-23-24,1-2";
    let b = configured(false);
    let first = b.with_ja3_full(d).unwrap().ja3_full();
    assert_eq!(
        first,
        "771,4865-4866-4867,0-23-65281-10-11-35-16-5-13-18-51-45-43-27-21,29-23-24,0"
    );
    let second = b.with_ja3_full(&first).unwrap().ja3_full();
    assert_eq!(first, second);
}

#[test]
fn order_kept_without_shuffle() {
    let d = "771,4865,0-10-43-51-16,29-23,0";
    let plan = configured(true).with_ja3_full(d).unwrap();
    let natural = vec![
        ClientExtension::KeyShare(vec![9, 9]),
        ClientExtension::ServerName(vec![1, 2, 3]),
        ClientExtension::Padding(vec![0; 4]),
    ];
    let out = plan.override_extensions(natural);
    assert_eq!(out.len(), 7);
    assert!(is_marker(&out[0]));
    assert!(is_marker(&out[6]));
    let types: Vec<u16> = out[1..6].iter().map(|e| e.get_ext_type()).collect();
    assert_eq!(types, vec![0, 10, 43, 51, 16]);
    assert!(matches!(&out[1], ClientExtension::ServerName(p) if p == &vec![1, 2, 3]));
    match &out[2] {
        ClientExtension::NamedGroups(g) => {
            assert_eq!(g.len(), 3);
            assert!(is_grease(g[0]));
            assert_eq!(&g[1..], &[29, 23]);
        }
        _ => panic!("named groups expected"),
    }
    match &out[3] {
        ClientExtension::SupportedVersions(v) => {
            assert!(is_grease(v[0]));
            assert_eq!(&v[1..], &[TLS_V1_3, TLS_V1_2]);
        }
        _ => panic!("supported versions expected"),
    }
    assert!(matches!(&out[4], ClientExtension::KeyShare(p) if p == &vec![9, 9]));
    assert_eq!(plan.override_cipher_suites(vec![1, 2, 3]), vec![4865]);
}

#[test]
fn missing_graft_is_omitted() {
    let plan = configured(false).with_ja3_full("771,4865,0-23-51,29,0").unwrap();
    let out = plan.override_extensions(vec![]);
    let types: Vec<u16> = out.iter().map(|e| e.get_ext_type()).collect();
    assert_eq!(types, vec![23]);
}

#[test]
fn padding_stays_last_with_noise() {
    let plan = configured(true).with_ja3_full("771,4865,23-10-21,29,0").unwrap();
    let e = &plan.extensions;
    assert_eq!(e.len(), 5);
    assert!(matches!(e[0], ExtensionChunk::Grease));
    assert!(matches!(e[3], ExtensionChunk::Grease));
    assert!(matches!(&e[4], ExtensionChunk::Extension(ClientExtension::Padding(_))));
    let plan = configured(true).with_ja3_full("771,4865,23-21-10,29,0").unwrap();
    let e = &plan.extensions;
    assert!(matches!(e[4], ExtensionChunk::Grease));
    assert!(matches!(e[3], ExtensionChunk::GreasedNameGroups(_)));
}

#[test]
fn shuffle_keeps_ends() {
    let mut b = configured(true);
    b.with_shuffle_extension(true);
    let plan = b
        .with_ja3_full("771,4865,23-65281-5-18-35-11-13-45-21,29,0")
        .unwrap();
    for _ in 0..20 {
        let out = plan.override_extensions(vec![]);
        assert_eq!(out.len(), 11);
        assert!(is_marker(&out[0]));
        assert!(is_marker(&out[9]));
        assert_eq!(out[10].get_ext_type(), 21);
        let mut mid: Vec<u16> = out[1..9].iter().map(|e| e.get_ext_type()).collect();
        mid.sort();
        assert_eq!(mid, vec![5, 11, 13, 18, 23, 35, 45, 65281]);
    }
}

#[test]
fn shuffle_range_bounds() {
    let exts = vec![
        ClientExtension::Unknown(0x0a0a, vec![]),
        ClientExtension::Padding(vec![]),
        ClientExtension::StatusRequest,
        ClientExtension::Unknown(0x1a1a, vec![]),
        ClientExtension::Padding(vec![]),
    ];
    assert_eq!(shuffle_range(&exts), Some((1, 2)));
    let only_ends = vec![
        ClientExtension::Unknown(0x0a0a, vec![]),
        ClientExtension::Padding(vec![]),
    ];
    assert_eq!(shuffle_range(&only_ends), None);
}

#[test]
fn missing_version_list() {
    let mut b = configured(false);
    b.tls_versions = None;
    let r = b.with_ja3_full("771,4865,0-23-43-zz,29,0");
    assert!(matches!(r, Err(FailReason::MissingTLSVersion)));
}

#[test]
fn each_error_variant() {
    let b = configured(false);
    assert!(matches!(b.with_ja3_full("771,4865,0,29"), Err(FailReason::Part)));
    assert!(matches!(b.with_ja3_full("771,4865-x1,0,29,0"), Err(FailReason::CipherSuite("x1"))));
    assert!(matches!(b.with_ja3_full("771,,0,29,0"), Err(FailReason::CipherSuite(""))));
    assert!(matches!(b.with_ja3_full("771,65536,0,29,0"), Err(FailReason::CipherSuite("65536"))));
    assert!(matches!(b.with_ja3_full("771,4865,0,29-g,0"), Err(FailReason::NamedGroup("g"))));
    assert!(matches!(b.with_ja3_full("771,4865,0-q,29,0"), Err(FailReason::ExtensionType("q"))));
    assert!(matches!(b.with_ja3_full("771,4865,0-999,29,0"), Err(FailReason::ExtensionType("999"))));
    let empty = JAOverride::builder();
    assert!(matches!(empty.with_ja3_full("771,4865,16,29,0"), Err(FailReason::MissingALPN)));
    assert!(matches!(
        empty.with_ja3_full("771,4865,13,29,0"),
        Err(FailReason::MissingSignatureAlgorithms)
    ));
    assert!(matches!(
        empty.with_ja3_full("771,4865,27,29,0"),
        Err(FailReason::MissingCompressCertificate)
    ));
    assert_eq!(FailReason::NamedGroup("g").describe(), "NamedGroup(\"g\")");
    assert_eq!(FailReason::Part.describe(), "Part");
}

#[test]
fn unknown_extension_from_configuration() {
    let mut b = configured(false);
    b.unknown_extensions.insert(999, ClientExtension::unknown(999, vec![7]));
    let plan = b.with_ja3_full("771,4865,999,29,0").unwrap();
    assert!(matches!(
        &plan.extensions[0],
        ExtensionChunk::Extension(ClientExtension::Unknown(999, p)) if p == &vec![7]
    ));
    assert_eq!(plan.ja3_full(), "771,4865,999,,");
}

#[test]
fn grease_values() {
    assert_eq!(grease_from_byte(0), 0x0a0a);
    assert_eq!(grease_from_byte(15), 0xfafa);
    assert_eq!(grease_from_byte(17), 0x1a1a);
    for b in 0..=255u8 {
        assert!(is_grease(grease_from_byte(b)));
    }
}

#[test]
fn ech_noise_shape() {
    let e = grease_ech();
    match e {
        ClientExtension::Unknown(t, p) => {
            assert_eq!(t, EXT_ENCRYPTED_CLIENT_HELLO);
            assert_eq!(p.len(), 186);
            assert_eq!(&p[0..5], &[0, 0, 1, 0, 1]);
            assert_eq!(&p[6..8], &[0, 32]);
            assert_eq!(&p[40..42], &[0, 144]);
        }
        _ => panic!("unknown extension expected"),
    }
    let framed = ech_payload(7, &vec![1; 32], &vec![2; 144]);
    assert_eq!(framed[5], 7);
    assert_eq!(framed[8], 1);
    assert_eq!(framed[42], 2);
}

#[test]
fn hashes_of_plan_built_by_hand() {
    let plan = JAOverride {
        cipher_suites: vec![0x1a1a, 4866, 4865],
        extensions: vec![
            ExtensionChunk::Grease,
            ExtensionChunk::Sni,
            ExtensionChunk::GreasedNameGroups(vec![29]),
            ExtensionChunk::Extension(ClientExtension::EcPointFormats(vec![0, 1])),
            ExtensionChunk::Grease,
        ],
        shuffle_extension: false,
    };
    assert_eq!(plan.ja3_full(), "771,6682-4866-4865,0-10-11,29,0-1");
    let ja4 = plan.ja4_hash();
    assert!(ja4.starts_with("t12d2300_"));
    assert_eq!(ja4.len(), "t12d2300_".len() + 12 + 1 + 12);
}
