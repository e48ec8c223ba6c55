//! Noise payloads for the encrypted-client-hello extension.
use crate::extension::ClientExtension;
use crate::extension::ExtModel;
use crate::random::random_byte;
use vstd::prelude::*;

verus! {

/// The extension type of encrypted client hello.
pub const EXT_ENCRYPTED_CLIENT_HELLO: u16 = 65037;
/// HPKE KDF identifier of HKDF-SHA256.
pub const HPKE_KDF_HKDF_SHA256: u16 = 0x0001;
/// HPKE AEAD identifier of AES-128-GCM.
pub const HPKE_AEAD_AES_128_GCM: u16 = 0x0001;

pub const ECH_ENC_LEN: usize = 32;
pub const ECH_PAYLOAD_LEN: usize = 144;

/// The outer-hello payload: type 0, KDF, AEAD, config id, then the
/// length-prefixed `enc` and the length-prefixed payload, big-endian.
pub open spec fn ech_payload_spec(config_id: u8, enc: Seq<u8>, payload: Seq<u8>) -> Seq<u8> {
    seq![
        0u8,
        (HPKE_KDF_HKDF_SHA256 / 256) as u8,
        (HPKE_KDF_HKDF_SHA256 % 256) as u8,
        (HPKE_AEAD_AES_128_GCM / 256) as u8,
        (HPKE_AEAD_AES_128_GCM % 256) as u8,
        config_id,
        (ECH_ENC_LEN / 256) as u8,
        (ECH_ENC_LEN % 256) as u8,
    ] + enc + seq![(ECH_PAYLOAD_LEN / 256) as u8, (ECH_PAYLOAD_LEN % 256) as u8] + payload
}

fn push_u16_be(out: &mut Vec<u8>, v: u16)
    ensures
        final(out)@ == old(out)@ + seq![(v / 256) as u8, (v % 256) as u8],
{
    out.push((v / 256) as u8);
    out.push((v % 256) as u8);
    assert(final(out)@ =~= old(out)@ + seq![(v / 256) as u8, (v % 256) as u8]);
}

/// Frames an outer-hello payload from its random parts.
pub fn ech_payload(config_id: u8, enc: &Vec<u8>, payload: &Vec<u8>) -> (r: Vec<u8>)
    requires
        enc@.len() == ECH_ENC_LEN,
        payload@.len() == ECH_PAYLOAD_LEN,
    ensures
        r@ == ech_payload_spec(config_id, enc@, payload@),
        r@.len() == 186,
{
    let mut out: Vec<u8> = Vec::with_capacity(200);
    out.push(0);
    push_u16_be(&mut out, HPKE_KDF_HKDF_SHA256);
    push_u16_be(&mut out, HPKE_AEAD_AES_128_GCM);
    out.push(config_id);
    push_u16_be(&mut out, ECH_ENC_LEN as u16);
    let mut e = enc.clone();
    out.append(&mut e);
    push_u16_be(&mut out, ECH_PAYLOAD_LEN as u16);
    let mut p = payload.clone();
    out.append(&mut p);
    assert(out@ =~= ech_payload_spec(config_id, enc@, payload@));
    out
}

fn random_bytes(n: usize) -> (r: Vec<u8>)
    ensures
        r@.len() == n,
{
    let mut r: Vec<u8> = Vec::with_capacity(n);
    let mut i: usize = 0;
    while i < n
        invariant
            i <= n,
            r@.len() == i,
        decreases n - i,
    {
        r.push(random_byte());
        i += 1;
    }
    r
}

/// A fresh noise extension for encrypted client hello: random config id,
/// `enc` and payload in the outer-hello frame.
pub fn grease_ech() -> (r: ClientExtension)
    ensures
        exists|config_id: u8, enc: Seq<u8>, payload: Seq<u8>|
            enc.len() == ECH_ENC_LEN && payload.len() == ECH_PAYLOAD_LEN && r@ == ExtModel::Unknown(
                EXT_ENCRYPTED_CLIENT_HELLO,
                #[trigger] ech_payload_spec(config_id, enc, payload),
            ),
{
    let config_id = random_byte();
    let enc = random_bytes(ECH_ENC_LEN);
    let payload = random_bytes(ECH_PAYLOAD_LEN);
    let body = ech_payload(config_id, &enc, &payload);
    ClientExtension::unknown(EXT_ENCRYPTED_CLIENT_HELLO, body)
}

} // verus!
