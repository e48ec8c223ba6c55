//! Recomputation of the descriptor string and of the condensed identifiers
//! from a plan.
use crate::builder::{chunks_view, ChunkModel, ExtensionChunk};
use crate::extension::{
    check_grease, is_grease, names_view, ClientExtension, ExtModel, EXT_KEY_SHARE, EXT_NAMED_GROUPS,
    EXT_SERVER_NAME, EXT_SUPPORTED_VERSIONS, TLS_V1_3,
};
use crate::builder::parse_list;
use crate::text::{
    decimal, hex4, hex_of, is_digit, lemma_decimal_digits, lemma_parse_decimal, lemma_split_concat,
    lemma_split_single, push_decimal, push_hex, push_hex4, split_on, string_of,
};
use crate::{JAOverride, PlanModel};
use sha2::Digest;
use vstd::prelude::*;
use vstd::relations::{sorted_by, total_ordering};
use vstd::slice::slice_subrange;

verus! {

/// The name of what MD5 makes of the UTF-8 bytes of a text.
pub uninterp spec fn md5_of(text: Seq<char>) -> Seq<u8>;

/// The name of what SHA-256 makes of the UTF-8 bytes of a text.
pub uninterp spec fn sha256_of(text: Seq<char>) -> Seq<u8>;

/// Relies on `md5::compute`: the 16-byte digest of the input bytes, a
/// function of them alone.
#[verifier::external_body]
fn md5_digest(text: &str) -> (r: Vec<u8>)
    ensures
        r@ == md5_of(text@),
        r@.len() == 16,
{
    md5::compute(text.as_bytes()).0.to_vec()
}

/// Relies on `sha2::Sha256::digest`: the 32-byte digest of the input bytes,
/// a function of them alone.
#[verifier::external_body]
fn sha256_digest(text: &str) -> (r: Vec<u8>)
    ensures
        r@ == sha256_of(text@),
        r@.len() == 32,
{
    sha2::Sha256::digest(text.as_bytes()).to_vec()
}

/// Relies on `slice::sort_unstable`: the same values, in ascending order.
#[verifier::external_body]
fn sort_values(v: &mut Vec<u16>)
    ensures
        sorted_by(final(v)@, |a: u16, b: u16| a <= b),
        final(v)@.to_multiset() == old(v)@.to_multiset(),
{
    v.sort_unstable()
}

/// `s` in ascending numeric order.
pub open spec fn ascending(s: Seq<u16>) -> Seq<u16> {
    s.sort_by(|a: u16, b: u16| a <= b)
}

fn sort_ascending(v: &mut Vec<u16>)
    ensures
        final(v)@ == ascending(old(v)@),
{
    let ghost before = v@;
    sort_values(v);
    proof {
        let leq = |a: u16, b: u16| a <= b;
        assert(total_ordering(leq));
        before.lemma_sort_by_ensures(leq);
        vstd::seq_lib::lemma_sorted_unique(v@, before.sort_by(leq), leq);
    }
}

/// The extension type that a chunk contributes to a fingerprint; markers
/// contribute none.
pub open spec fn chunk_type(c: ChunkModel) -> Option<u16> {
    match c {
        ChunkModel::Grease => None,
        ChunkModel::Sni => Some(EXT_SERVER_NAME),
        ChunkModel::KeyShare => Some(EXT_KEY_SHARE),
        ChunkModel::GreasedNameGroups(_) => Some(EXT_NAMED_GROUPS),
        ChunkModel::GreasedTLSVersion(_) => Some(EXT_SUPPORTED_VERSIONS),
        ChunkModel::Extension(e) => Some(e.ext_type()),
    }
}

/// The extension types of a chunk sequence, in order, markers left out.
pub open spec fn extension_types(cs: Seq<ChunkModel>) -> Seq<u16>
    decreases cs.len(),
{
    if cs.len() == 0 {
        Seq::<u16>::empty()
    } else {
        match chunk_type(cs.last()) {
            Some(t) => extension_types(cs.drop_last()).push(t),
            None => extension_types(cs.drop_last()),
        }
    }
}

fn chunk_type_of(c: &ExtensionChunk) -> (r: Option<u16>)
    ensures
        r == chunk_type(c@),
{
    match c {
        ExtensionChunk::Grease => None,
        ExtensionChunk::Sni => Some(EXT_SERVER_NAME),
        ExtensionChunk::KeyShare => Some(EXT_KEY_SHARE),
        ExtensionChunk::GreasedNameGroups(_) => Some(EXT_NAMED_GROUPS),
        ExtensionChunk::GreasedTLSVersion(_) => Some(EXT_SUPPORTED_VERSIONS),
        ExtensionChunk::Extension(e) => Some(e.get_ext_type()),
    }
}

/// The extension types of the chunks, in order, markers left out.
pub fn extension_to_vec(ext: &Vec<ExtensionChunk>) -> (r: Vec<u16>)
    ensures
        r@ == extension_types(chunks_view(ext@)),
{
    let ghost cs = chunks_view(ext@);
    let mut r: Vec<u16> = Vec::new();
    let mut i: usize = 0;
    assert(cs.subrange(0, 0) =~= Seq::<ChunkModel>::empty());
    while i < ext.len()
        invariant
            i <= ext@.len(),
            cs == chunks_view(ext@),
            r@ == extension_types(cs.subrange(0, i as int)),
        decreases ext@.len() - i,
    {
        let ghost cur = cs.subrange(0, i as int + 1);
        assert(cur.drop_last() =~= cs.subrange(0, i as int));
        if let Some(t) = chunk_type_of(&ext[i]) {
            r.push(t);
        }
        i += 1;
    }
    assert(cs.subrange(0, i as int) =~= cs);
    r
}

/// The values joined with `sep`, each in decimal.
pub open spec fn join_decimal(vs: Seq<u16>, sep: char) -> Seq<char>
    decreases vs.len(),
{
    if vs.len() == 0 {
        Seq::<char>::empty()
    } else if vs.len() == 1 {
        decimal(vs[0] as nat)
    } else {
        join_decimal(vs.drop_last(), sep).push(sep) + decimal(vs.last() as nat)
    }
}

/// The values joined with `sep`, each as four lowercase hex digits.
pub open spec fn join_hex4(vs: Seq<u16>, sep: char) -> Seq<char>
    decreases vs.len(),
{
    if vs.len() == 0 {
        Seq::<char>::empty()
    } else if vs.len() == 1 {
        hex4(vs[0])
    } else {
        join_hex4(vs.drop_last(), sep).push(sep) + hex4(vs.last())
    }
}

fn push_join_decimal(out: &mut Vec<char>, vs: &Vec<u16>, sep: char)
    ensures
        final(out)@ == old(out)@ + join_decimal(vs@, sep),
{
    let mut i: usize = 0;
    assert(vs@.subrange(0, 0) =~= Seq::<u16>::empty());
    assert(old(out)@ + join_decimal(Seq::<u16>::empty(), sep) =~= old(out)@);
    while i < vs.len()
        invariant
            i <= vs@.len(),
            out@ == old(out)@ + join_decimal(vs@.subrange(0, i as int), sep),
        decreases vs@.len() - i,
    {
        let ghost cur = vs@.subrange(0, i as int + 1);
        assert(cur.drop_last() =~= vs@.subrange(0, i as int));
        if i > 0 {
            out.push(sep);
        }
        push_decimal(out, vs[i] as u64);
        if i == 0 {
            assert(out@ =~= old(out)@ + join_decimal(cur, sep));
        } else {
            assert(out@ =~= old(out)@ + join_decimal(cur, sep));
        }
        i += 1;
    }
    assert(vs@.subrange(0, i as int) =~= vs@);
}

fn push_join_hex4(out: &mut Vec<char>, vs: &Vec<u16>, sep: char)
    ensures
        final(out)@ == old(out)@ + join_hex4(vs@, sep),
{
    let mut i: usize = 0;
    assert(vs@.subrange(0, 0) =~= Seq::<u16>::empty());
    assert(old(out)@ + join_hex4(Seq::<u16>::empty(), sep) =~= old(out)@);
    while i < vs.len()
        invariant
            i <= vs@.len(),
            out@ == old(out)@ + join_hex4(vs@.subrange(0, i as int), sep),
        decreases vs@.len() - i,
    {
        let ghost cur = vs@.subrange(0, i as int + 1);
        assert(cur.drop_last() =~= vs@.subrange(0, i as int));
        if i > 0 {
            out.push(sep);
        }
        push_hex4(out, vs[i]);
        assert(out@ =~= old(out)@ + join_hex4(cur, sep));
        i += 1;
    }
    assert(vs@.subrange(0, i as int) =~= vs@);
}

/// The decimal renderings of the values.
pub open spec fn decimals(vs: Seq<u16>) -> Seq<Seq<char>> {
    vs.map_values(|v: u16| decimal(v as nat))
}

/// A decimal join holds only digits and the separator.
pub proof fn lemma_join_chars(vs: Seq<u16>, sep: char)
    ensures
        forall|i: int|
            0 <= i < join_decimal(vs, sep).len() ==> is_digit(#[trigger] join_decimal(vs, sep)[i])
                || join_decimal(vs, sep)[i] == sep,
    decreases vs.len(),
{
    if vs.len() == 1 {
        lemma_decimal_digits(vs[0] as nat);
    } else if vs.len() > 1 {
        lemma_join_chars(vs.drop_last(), sep);
        lemma_decimal_digits(vs.last() as nat);
        let a = join_decimal(vs.drop_last(), sep);
        let d = decimal(vs.last() as nat);
        assert(join_decimal(vs, sep) == a.push(sep) + d);
        assert forall|i: int| 0 <= i < join_decimal(vs, sep).len() implies is_digit(
            #[trigger] join_decimal(vs, sep)[i],
        ) || join_decimal(vs, sep)[i] == sep by {
            if i < a.len() {
                assert(join_decimal(vs, sep)[i] == a[i]);
            } else if i > a.len() {
                assert(join_decimal(vs, sep)[i] == d[i - a.len() - 1]);
            }
        }
    }
}

/// Splitting a decimal join at its separator gives the renderings back.
pub proof fn lemma_split_join(vs: Seq<u16>, sep: char)
    requires
        vs.len() >= 1,
        !is_digit(sep),
    ensures
        split_on(join_decimal(vs, sep), sep) == decimals(vs),
    decreases vs.len(),
{
    lemma_decimal_digits(vs.last() as nat);
    let d = decimal(vs.last() as nat);
    assert forall|i: int| 0 <= i < d.len() implies d[i] != sep by {
        assert(is_digit(d[i]));
    }
    lemma_split_single(d, sep);
    if vs.len() == 1 {
        assert(decimals(vs) =~= seq![d]);
    } else {
        let a = join_decimal(vs.drop_last(), sep);
        lemma_split_join(vs.drop_last(), sep);
        assert(join_decimal(vs, sep) =~= a + seq![sep] + d);
        lemma_split_concat(a, d, sep);
        assert(decimals(vs) =~= decimals(vs.drop_last()) + seq![d]);
    }
}

/// Parsing the decimal renderings gives the values back.
pub proof fn lemma_parse_decimals(vs: Seq<u16>)
    ensures
        parse_list(decimals(vs)) == Ok::<Seq<u16>, Seq<char>>(vs),
    decreases vs.len(),
{
    if vs.len() > 0 {
        assert(decimals(vs).drop_last() =~= decimals(vs.drop_last()));
        lemma_parse_decimals(vs.drop_last());
        lemma_parse_decimal(vs.last());
        assert(vs.drop_last().push(vs.last()) =~= vs);
    } else {
        assert(vs =~= Seq::<u16>::empty());
    }
}

/// The named groups of the first chunk that carries them.
pub open spec fn first_groups(cs: Seq<ChunkModel>) -> Option<Seq<u16>>
    decreases cs.len(),
{
    if cs.len() == 0 {
        None
    } else {
        match cs[0] {
            ChunkModel::GreasedNameGroups(g) => Some(g),
            ChunkModel::Extension(ExtModel::NamedGroups(g)) => Some(g),
            _ => first_groups(cs.drop_first()),
        }
    }
}

/// The EC point formats of the first literal that carries them, widened.
pub open spec fn first_formats(cs: Seq<ChunkModel>) -> Option<Seq<u16>>
    decreases cs.len(),
{
    if cs.len() == 0 {
        None
    } else {
        match cs[0] {
            ChunkModel::Extension(ExtModel::EcPointFormats(f)) => Some(
                f.map_values(|x: u8| x as u16),
            ),
            _ => first_formats(cs.drop_first()),
        }
    }
}

/// The protocol versions of the first chunk that carries them.
pub open spec fn first_versions(cs: Seq<ChunkModel>) -> Option<Seq<u16>>
    decreases cs.len(),
{
    if cs.len() == 0 {
        None
    } else {
        match cs[0] {
            ChunkModel::GreasedTLSVersion(v) => Some(v),
            ChunkModel::Extension(ExtModel::SupportedVersions(v)) => Some(v),
            _ => first_versions(cs.drop_first()),
        }
    }
}

/// The signature algorithms of the first literal that carries them.
pub open spec fn first_signatures(cs: Seq<ChunkModel>) -> Option<Seq<u16>>
    decreases cs.len(),
{
    if cs.len() == 0 {
        None
    } else {
        match cs[0] {
            ChunkModel::Extension(ExtModel::SignatureAlgorithms(s)) => Some(s),
            _ => first_signatures(cs.drop_first()),
        }
    }
}

/// The ALPN names of the first literal that carries them.
pub open spec fn first_protocols(cs: Seq<ChunkModel>) -> Option<Seq<Seq<u8>>>
    decreases cs.len(),
{
    if cs.len() == 0 {
        None
    } else {
        match cs[0] {
            ChunkModel::Extension(ExtModel::Protocols(p)) => Some(p),
            _ => first_protocols(cs.drop_first()),
        }
    }
}

/// The descriptor string of a plan:
/// `771,<ciphers>,<extension types>,<groups>,<point formats>`.
pub open spec fn ja3_spec(p: PlanModel) -> Seq<char> {
    let groups = match first_groups(p.extensions) {
        Some(g) => join_decimal(g, '-'),
        None => Seq::<char>::empty(),
    };
    let formats = match first_formats(p.extensions) {
        Some(f) => join_decimal(f, '-'),
        None => Seq::<char>::empty(),
    };
    decimal(771) + seq![','] + join_decimal(p.cipher_suites, '-') + seq![','] + join_decimal(
        extension_types(p.extensions),
        '-',
    ) + seq![','] + groups + seq![','] + formats
}

/// `s` without reserved values.
pub open spec fn without_grease(s: Seq<u16>) -> Seq<u16>
    decreases s.len(),
{
    if s.len() == 0 {
        s
    } else if is_grease(s.last()) {
        without_grease(s.drop_last())
    } else {
        without_grease(s.drop_last()).push(s.last())
    }
}

/// Whether the plan names a server: a server-name graft or literal.
pub open spec fn has_domain(cs: Seq<ChunkModel>) -> bool {
    exists|i: int|
        0 <= i < cs.len() && (#[trigger] cs[i] is Sni || cs[i] matches ChunkModel::Extension(
            ExtModel::ServerName(_),
        ))
}

/// The version tag: `13` when the first listed version is TLS 1.3, else `12`.
pub open spec fn version_tag(cs: Seq<ChunkModel>) -> Seq<char> {
    match first_versions(cs) {
        Some(v) if v.len() > 0 && v[0] == TLS_V1_3 => seq!['1', '3'],
        _ => seq!['1', '2'],
    }
}

pub open spec fn h2_name() -> Seq<u8> {
    seq![104u8, 50u8]
}

pub open spec fn http11_name() -> Seq<u8> {
    seq![104u8, 116u8, 116u8, 112u8, 47u8, 49u8, 46u8, 49u8]
}

/// The ALPN tag: `h2` or `h1` for those first names, `00` otherwise.
pub open spec fn alpn_tag(cs: Seq<ChunkModel>) -> Seq<char> {
    match first_protocols(cs) {
        Some(p) if p.len() > 0 && p[0] == h2_name() => seq!['h', '2'],
        Some(p) if p.len() > 0 && p[0] == http11_name() => seq!['h', '1'],
        _ => seq!['0', '0'],
    }
}

/// The sorted cipher suites of the identifier, reserved values left out.
pub open spec fn ja4_ciphers(p: PlanModel) -> Seq<u16> {
    ascending(without_grease(p.cipher_suites))
}

/// The sorted extension types of the identifier, reserved values left out.
pub open spec fn ja4_extensions(p: PlanModel) -> Seq<u16> {
    ascending(without_grease(extension_types(p.extensions)))
}

/// The text hashed for the second part of the identifier.
pub open spec fn ja4_b_text(p: PlanModel) -> Seq<char> {
    join_hex4(ja4_ciphers(p), ',')
}

/// The text hashed for the third part of the identifier.
pub open spec fn ja4_c_text(p: PlanModel) -> Seq<char> {
    let sig = match first_signatures(p.extensions) {
        Some(s) => join_hex4(s, ','),
        None => Seq::<char>::empty(),
    };
    join_hex4(ja4_extensions(p), ',') + seq!['_'] + sig
}

/// The condensed identifier `t<ver><d|i><#ciphers><#exts><alpn>_<hashB>_<hashC>`.
pub open spec fn ja4_spec(p: PlanModel) -> Seq<char> {
    seq!['t'] + version_tag(p.extensions) + (if has_domain(p.extensions) {
        seq!['d']
    } else {
        seq!['i']
    }) + decimal(ja4_ciphers(p).len()) + decimal(ja4_extensions(p).len()) + alpn_tag(
        p.extensions,
    ) + seq!['_'] + hex_of(sha256_of(ja4_b_text(p)).subrange(0, 6)) + seq!['_'] + hex_of(
        sha256_of(ja4_c_text(p)).subrange(0, 6),
    )
}

fn find_groups(cs: &Vec<ExtensionChunk>) -> (r: Option<&Vec<u16>>)
    ensures
        match r {
            Some(g) => first_groups(chunks_view(cs@)) == Some(g@),
            None => first_groups(chunks_view(cs@)) is None,
        },
{
    let ghost v = chunks_view(cs@);
    let mut i: usize = 0;
    assert(v.subrange(0, v.len() as int) =~= v);
    while i < cs.len()
        invariant
            i <= cs@.len(),
            v == chunks_view(cs@),
            first_groups(v) == first_groups(v.subrange(i as int, v.len() as int)),
        decreases cs@.len() - i,
    {
        let ghost rest = v.subrange(i as int, v.len() as int);
        assert(rest.drop_first() =~= v.subrange(i as int + 1, v.len() as int));
        assert(rest[0] == cs[i as int]@);
        match &cs[i] {
            ExtensionChunk::GreasedNameGroups(g) => {
                return Some(g);
            },
            ExtensionChunk::Extension(ClientExtension::NamedGroups(g)) => {
                return Some(g);
            },
            _ => {},
        }
        i += 1;
    }
    None
}

fn find_versions(cs: &Vec<ExtensionChunk>) -> (r: Option<&Vec<u16>>)
    ensures
        match r {
            Some(g) => first_versions(chunks_view(cs@)) == Some(g@),
            None => first_versions(chunks_view(cs@)) is None,
        },
{
    let ghost v = chunks_view(cs@);
    let mut i: usize = 0;
    assert(v.subrange(0, v.len() as int) =~= v);
    while i < cs.len()
        invariant
            i <= cs@.len(),
            v == chunks_view(cs@),
            first_versions(v) == first_versions(v.subrange(i as int, v.len() as int)),
        decreases cs@.len() - i,
    {
        let ghost rest = v.subrange(i as int, v.len() as int);
        assert(rest.drop_first() =~= v.subrange(i as int + 1, v.len() as int));
        assert(rest[0] == cs[i as int]@);
        match &cs[i] {
            ExtensionChunk::GreasedTLSVersion(g) => {
                return Some(g);
            },
            ExtensionChunk::Extension(ClientExtension::SupportedVersions(g)) => {
                return Some(g);
            },
            _ => {},
        }
        i += 1;
    }
    None
}

fn find_signatures(cs: &Vec<ExtensionChunk>) -> (r: Option<&Vec<u16>>)
    ensures
        match r {
            Some(g) => first_signatures(chunks_view(cs@)) == Some(g@),
            None => first_signatures(chunks_view(cs@)) is None,
        },
{
    let ghost v = chunks_view(cs@);
    let mut i: usize = 0;
    assert(v.subrange(0, v.len() as int) =~= v);
    while i < cs.len()
        invariant
            i <= cs@.len(),
            v == chunks_view(cs@),
            first_signatures(v) == first_signatures(v.subrange(i as int, v.len() as int)),
        decreases cs@.len() - i,
    {
        let ghost rest = v.subrange(i as int, v.len() as int);
        assert(rest.drop_first() =~= v.subrange(i as int + 1, v.len() as int));
        assert(rest[0] == cs[i as int]@);
        match &cs[i] {
            ExtensionChunk::Extension(ClientExtension::SignatureAlgorithms(g)) => {
                return Some(g);
            },
            _ => {},
        }
        i += 1;
    }
    None
}

fn find_formats(cs: &Vec<ExtensionChunk>) -> (r: Option<Vec<u16>>)
    ensures
        match r {
            Some(f) => first_formats(chunks_view(cs@)) == Some(f@),
            None => first_formats(chunks_view(cs@)) is None,
        },
{
    let ghost v = chunks_view(cs@);
    let mut i: usize = 0;
    assert(v.subrange(0, v.len() as int) =~= v);
    while i < cs.len()
        invariant
            i <= cs@.len(),
            v == chunks_view(cs@),
            first_formats(v) == first_formats(v.subrange(i as int, v.len() as int)),
        decreases cs@.len() - i,
    {
        let ghost rest = v.subrange(i as int, v.len() as int);
        assert(rest.drop_first() =~= v.subrange(i as int + 1, v.len() as int));
        assert(rest[0] == cs[i as int]@);
        match &cs[i] {
            ExtensionChunk::Extension(ClientExtension::EcPointFormats(f)) => {
                let mut w: Vec<u16> = Vec::new();
                let mut j: usize = 0;
                while j < f.len()
                    invariant
                        j <= f@.len(),
                        w@ =~= f@.subrange(0, j as int).map_values(|x: u8| x as u16),
                    decreases f@.len() - j,
                {
                    w.push(f[j] as u16);
                    j += 1;
                }
                assert(f@.subrange(0, j as int) =~= f@);
                return Some(w);
            },
            _ => {},
        }
        i += 1;
    }
    None
}

fn find_protocols(cs: &Vec<ExtensionChunk>) -> (r: Option<&Vec<Vec<u8>>>)
    ensures
        match r {
            Some(p) => first_protocols(chunks_view(cs@)) == Some(names_view(p@)),
            None => first_protocols(chunks_view(cs@)) is None,
        },
{
    let ghost v = chunks_view(cs@);
    let mut i: usize = 0;
    assert(v.subrange(0, v.len() as int) =~= v);
    while i < cs.len()
        invariant
            i <= cs@.len(),
            v == chunks_view(cs@),
            first_protocols(v) == first_protocols(v.subrange(i as int, v.len() as int)),
        decreases cs@.len() - i,
    {
        let ghost rest = v.subrange(i as int, v.len() as int);
        assert(rest.drop_first() =~= v.subrange(i as int + 1, v.len() as int));
        assert(rest[0] == cs[i as int]@);
        match &cs[i] {
            ExtensionChunk::Extension(ClientExtension::Protocols(p)) => {
                return Some(p);
            },
            _ => {},
        }
        i += 1;
    }
    None
}

fn find_domain(cs: &Vec<ExtensionChunk>) -> (r: bool)
    ensures
        r == has_domain(chunks_view(cs@)),
{
    let ghost v = chunks_view(cs@);
    let mut i: usize = 0;
    while i < cs.len()
        invariant
            i <= cs@.len(),
            v == chunks_view(cs@),
            forall|k: int| 0 <= k < i ==> !(#[trigger] v[k] is Sni || v[k] matches ChunkModel::Extension(
                ExtModel::ServerName(_),
            )),
        decreases cs@.len() - i,
    {
        assert(v[i as int] == cs[i as int]@);
        match &cs[i] {
            ExtensionChunk::Sni => {
                return true;
            },
            ExtensionChunk::Extension(ClientExtension::ServerName(_)) => {
                return true;
            },
            _ => {},
        }
        i += 1;
    }
    false
}

fn is_name(n: &Vec<u8>, want: &[u8]) -> (r: bool)
    ensures
        r == (n@ == want@),
{
    if n.len() != want.len() {
        return false;
    }
    let mut i: usize = 0;
    while i < n.len()
        invariant
            i <= n@.len(),
            n@.len() == want@.len(),
            n@.subrange(0, i as int) == want@.subrange(0, i as int),
        decreases n@.len() - i,
    {
        if n[i] != want[i] {
            return false;
        }
        assert(n@.subrange(0, i as int + 1) =~= n@.subrange(0, i as int).push(n[i as int]));
        assert(want@.subrange(0, i as int + 1) =~= want@.subrange(0, i as int).push(want[i as int]));
        i += 1;
    }
    assert(n@ =~= n@.subrange(0, i as int));
    assert(want@ =~= want@.subrange(0, i as int));
    true
}

fn drop_grease(s: &Vec<u16>) -> (r: Vec<u16>)
    ensures
        r@ == without_grease(s@),
{
    let mut r: Vec<u16> = Vec::new();
    let mut i: usize = 0;
    assert(s@.subrange(0, 0) =~= Seq::<u16>::empty());
    while i < s.len()
        invariant
            i <= s@.len(),
            r@ == without_grease(s@.subrange(0, i as int)),
        decreases s@.len() - i,
    {
        let ghost cur = s@.subrange(0, i as int + 1);
        assert(cur.drop_last() =~= s@.subrange(0, i as int));
        if !check_grease(s[i]) {
            r.push(s[i]);
        }
        i += 1;
    }
    assert(s@.subrange(0, i as int) =~= s@);
    r
}

fn digest_prefix_hex(out: &mut Vec<char>, text: &Vec<char>)
    ensures
        final(out)@ == old(out)@ + hex_of(sha256_of(text@).subrange(0, 6)),
{
    let t = string_of(text);
    let d = sha256_digest(t.as_str());
    push_hex(out, slice_subrange(d.as_slice(), 0, 6));
}

impl JAOverride {
    /// The descriptor string that this plan reproduces.
    pub fn ja3_full(&self) -> (r: String)
        ensures
            r@ == ja3_spec(self@),
    {
        let mut out: Vec<char> = Vec::new();
        push_decimal(&mut out, 771);
        out.push(',');
        push_join_decimal(&mut out, &self.cipher_suites, '-');
        out.push(',');
        push_join_decimal(&mut out, &extension_to_vec(&self.extensions), '-');
        out.push(',');
        match find_groups(&self.extensions) {
            Some(g) => push_join_decimal(&mut out, g, '-'),
            None => {},
        }
        out.push(',');
        match find_formats(&self.extensions) {
            Some(f) => push_join_decimal(&mut out, &f, '-'),
            None => {},
        }
        let ghost p = self@;
        assert(out@ =~= ja3_spec(p));
        string_of(&out)
    }

    /// The lowercase hex MD5 digest of the descriptor string.
    pub fn ja3_hash(&self) -> (r: String)
        ensures
            r@ == hex_of(md5_of(ja3_spec(self@))),
    {
        let text = self.ja3_full();
        let d = md5_digest(text.as_str());
        let mut out: Vec<char> = Vec::new();
        push_hex(&mut out, d.as_slice());
        assert(out@ =~= hex_of(md5_of(ja3_spec(self@))));
        string_of(&out)
    }

    /// The condensed multi-part identifier of the plan.
    pub fn ja4_hash(&self) -> (r: String)
        ensures
            r@ == ja4_spec(self@),
    {
        let ghost p = self@;
        let cs = &self.extensions;
        let mut out: Vec<char> = Vec::new();
        out.push('t');
        let newer = match find_versions(cs) {
            Some(v) => v.len() > 0 && v[0] == TLS_V1_3,
            None => false,
        };
        if newer {
            out.push('1');
            out.push('3');
        } else {
            out.push('1');
            out.push('2');
        }
        if find_domain(cs) {
            out.push('d');
        } else {
            out.push('i');
        }
        let mut ciphers = drop_grease(&self.cipher_suites);
        sort_ascending(&mut ciphers);
        let mut exts = drop_grease(&extension_to_vec(cs));
        sort_ascending(&mut exts);
        push_decimal(&mut out, ciphers.len() as u64);
        push_decimal(&mut out, exts.len() as u64);
        let (a, b) = match find_protocols(cs) {
            Some(ps) => if ps.len() > 0 && is_name(&ps[0], &[104u8, 50u8]) {
                ('h', '2')
            } else if ps.len() > 0 && is_name(
                &ps[0],
                &[104u8, 116u8, 116u8, 112u8, 47u8, 49u8, 46u8, 49u8],
            ) {
                ('h', '1')
            } else {
                ('0', '0')
            },
            None => ('0', '0'),
        };
        out.push(a);
        out.push(b);
        let ghost head = out@;
        assert(head =~= seq!['t'] + version_tag(p.extensions) + (if has_domain(p.extensions) {
            seq!['d']
        } else {
            seq!['i']
        }) + decimal(ja4_ciphers(p).len()) + decimal(ja4_extensions(p).len()) + alpn_tag(
            p.extensions,
        ));
        out.push('_');
        let mut text_b: Vec<char> = Vec::new();
        push_join_hex4(&mut text_b, &ciphers, ',');
        digest_prefix_hex(&mut out, &text_b);
        out.push('_');
        let mut text_c: Vec<char> = Vec::new();
        push_join_hex4(&mut text_c, &exts, ',');
        text_c.push('_');
        match find_signatures(cs) {
            Some(sig) => push_join_hex4(&mut text_c, sig, ','),
            None => {},
        }
        assert(text_c@ =~= ja4_c_text(p));
        digest_prefix_hex(&mut out, &text_c);
        assert(out@ =~= ja4_spec(p));
        string_of(&out)
    }
}

} // verus!
