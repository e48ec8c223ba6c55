//! A plan parsed without noise reproduces itself through its own descriptor.
use crate::builder::{convert_extension_spec, parse_list, ChunkModel, JAOverrideBuilder};
use crate::extension::{
    ExtModel, EXT_ALPN, EXT_COMPRESS_CERTIFICATE, EXT_NAMED_GROUPS, EXT_SIGNATURE_ALGORITHMS,
    EXT_SUPPORTED_VERSIONS,
};
use crate::hash::{
    chunk_type, decimals, extension_types, first_formats, first_groups, ja3_spec, join_decimal,
    lemma_join_chars, lemma_parse_decimals, lemma_split_join,
};
use crate::text::{
    decimal, is_digit, lemma_decimal_digits, lemma_parse_decimal, lemma_split_concat,
    lemma_split_nonempty, lemma_split_single, parse_u16_spec, split_on,
};
use vstd::prelude::*;

verus! {

/// An extension type that the parser maps without the unknown-extension table.
pub open spec fn is_recognized(t: u16) -> bool {
    t == EXT_NAMED_GROUPS || t == EXT_SUPPORTED_VERSIONS || t == EXT_ALPN || t
        == EXT_SIGNATURE_ALGORITHMS || t == EXT_COMPRESS_CERTIFICATE || convert_extension_spec(
        t,
    ) is Some
}

/// The extension tokens of a descriptor.
pub open spec fn extension_tokens(s: Seq<char>) -> Seq<Seq<char>> {
    split_on(split_on(s, ',')[2], '-')
}

proof fn lemma_list_len(toks: Seq<Seq<char>>)
    ensures
        parse_list(toks) matches Ok(l) ==> l.len() == toks.len(),
    decreases toks.len(),
{
    if toks.len() > 0 {
        lemma_list_len(toks.drop_last());
    }
}

proof fn lemma_chunks_each(b: &JAOverrideBuilder, toks: Seq<Seq<char>>, gs: Seq<u16>)
    ensures
        b.chunks_spec(toks, gs) matches Ok(cs) ==> cs.len() == toks.len() && forall|i: int|
            0 <= i < toks.len() ==> b.chunk_spec(#[trigger] toks[i], gs) == Ok::<
                ChunkModel,
                crate::builder::FailModel,
            >(cs[i]),
    decreases toks.len(),
{
    if toks.len() > 0 {
        lemma_chunks_each(b, toks.drop_last(), gs);
        if let Ok(cs) = b.chunks_spec(toks, gs) {
            assert forall|i: int| 0 <= i < toks.len() implies b.chunk_spec(
                #[trigger] toks[i],
                gs,
            ) == Ok::<ChunkModel, crate::builder::FailModel>(cs[i]) by {
                if i < toks.len() - 1 {
                    assert(toks[i] == toks.drop_last()[i]);
                }
            }
        }
    }
}

/// What a recognized token's chunk is, without noise.
proof fn lemma_chunk_recognized(b: &JAOverrideBuilder, tok: Seq<char>, gs: Seq<u16>, t: u16)
    requires
        !b.grease,
        parse_u16_spec(tok) == Some(t),
        is_recognized(t),
        b.chunk_spec(tok, gs) is Ok,
    ensures
        chunk_type(b.chunk_spec(tok, gs)->Ok_0) == Some(t),
        b.chunk_spec(decimal(t as nat), gs) == b.chunk_spec(tok, gs),
        !(b.chunk_spec(tok, gs)->Ok_0 is GreasedNameGroups),
        !(b.chunk_spec(tok, gs)->Ok_0 is Grease),
        (b.chunk_spec(tok, gs)->Ok_0 matches ChunkModel::Extension(ExtModel::NamedGroups(g)))
            <==> t == EXT_NAMED_GROUPS,
        t == EXT_NAMED_GROUPS ==> b.chunk_spec(tok, gs)->Ok_0 == ChunkModel::Extension(
            ExtModel::NamedGroups(gs),
        ),
{
    lemma_parse_decimal(t);
}

proof fn lemma_types_round_trip(b: &JAOverrideBuilder, toks: Seq<Seq<char>>, gs: Seq<u16>)
    requires
        !b.grease,
        b.chunks_spec(toks, gs) is Ok,
        forall|i: int|
            0 <= i < toks.len() ==> (parse_u16_spec(#[trigger] toks[i]) matches Some(t)
                && is_recognized(t)),
    ensures
        extension_types(b.chunks_spec(toks, gs)->Ok_0).len() == toks.len(),
        b.chunks_spec(decimals(extension_types(b.chunks_spec(toks, gs)->Ok_0)), gs)
            == b.chunks_spec(toks, gs),
    decreases toks.len(),
{
    let cs = b.chunks_spec(toks, gs)->Ok_0;
    if toks.len() == 0 {
        assert(decimals(extension_types(cs)) =~= Seq::<Seq<char>>::empty());
    } else {
        let dl = toks.drop_last();
        assert forall|i: int| 0 <= i < dl.len() implies (parse_u16_spec(#[trigger] dl[i]) matches Some(
            t,
        ) && is_recognized(t)) by {
            assert(dl[i] == toks[i]);
        }
        lemma_types_round_trip(b, dl, gs);
        let last = toks.last();
        assert(parse_u16_spec(toks[toks.len() - 1]) is Some);
        let t = parse_u16_spec(last)->Some_0;
        lemma_chunk_recognized(b, last, gs, t);
        let c = b.chunk_spec(last, gs)->Ok_0;
        let cd = b.chunks_spec(dl, gs)->Ok_0;
        assert(cs == cd.push(c));
        assert(cs.drop_last() =~= cd);
        assert(extension_types(cs) == extension_types(cd).push(t));
        let ds = decimals(extension_types(cs));
        assert(ds.drop_last() =~= decimals(extension_types(cd)));
        assert(ds.last() == decimal(t as nat));
    }
}

proof fn lemma_first_groups_found(cs: Seq<ChunkModel>, gs: Seq<u16>)
    requires
        forall|i: int|
            0 <= i < cs.len() ==> !(#[trigger] cs[i] is GreasedNameGroups) && (cs[i] matches ChunkModel::Extension(
                ExtModel::NamedGroups(g),
            ) ==> g == gs),
        exists|i: int|
            0 <= i < cs.len() && #[trigger] cs[i] == ChunkModel::Extension(ExtModel::NamedGroups(gs)),
    ensures
        first_groups(cs) == Some(gs),
    decreases cs.len(),
{
    let k = choose|i: int|
        0 <= i < cs.len() && #[trigger] cs[i] == ChunkModel::Extension(ExtModel::NamedGroups(gs));
    if k > 0 && !(cs[0] matches ChunkModel::Extension(ExtModel::NamedGroups(_))) {
        let r = cs.drop_first();
        assert(r[k - 1] == cs[k]);
        assert forall|i: int| 0 <= i < r.len() implies !(#[trigger] r[i] is GreasedNameGroups) && (
        r[i] matches ChunkModel::Extension(ExtModel::NamedGroups(g)) ==> g == gs) by {
            assert(r[i] == cs[i + 1]);
        }
        lemma_first_groups_found(r, gs);
    }
}

proof fn lemma_no_comma(x: Seq<char>)
    requires
        forall|i: int| 0 <= i < x.len() ==> is_digit(#[trigger] x[i]) || x[i] == '-',
    ensures
        split_on(x, ',') == seq![x],
{
    assert forall|i: int| 0 <= i < x.len() implies x[i] != ',' by {
        assert(is_digit(x[i]) || x[i] == '-');
    }
    lemma_split_single(x, ',');
}

/// Round trip: without noise, for a descriptor whose extension types are all
/// recognized and include named groups, parsing the plan's own descriptor
/// gives the same plan, so recomputing the descriptor again gives the same
/// string.
pub proof fn lemma_round_trip(b: &JAOverrideBuilder, s: Seq<char>)
    requires
        !b.grease,
        b.plan_spec(s) is Ok,
        forall|i: int|
            0 <= i < extension_tokens(s).len() ==> (parse_u16_spec(
                #[trigger] extension_tokens(s)[i],
            ) matches Some(t) && is_recognized(t)),
        exists|i: int|
            0 <= i < extension_tokens(s).len() && parse_u16_spec(#[trigger] extension_tokens(s)[i])
                == Some(EXT_NAMED_GROUPS),
    ensures
        b.plan_spec(ja3_spec(b.plan_spec(s)->Ok_0)) == b.plan_spec(s),
        ja3_spec(b.plan_spec(ja3_spec(b.plan_spec(s)->Ok_0))->Ok_0) == ja3_spec(
            b.plan_spec(s)->Ok_0,
        ),
{
    let p = b.plan_spec(s)->Ok_0;
    let parts = split_on(s, ',');
    let ctoks = split_on(parts[1], '-');
    let gtoks = split_on(parts[3], '-');
    let toks = split_on(parts[2], '-');
    let cs = parse_list(ctoks)->Ok_0;
    let gs = parse_list(gtoks)->Ok_0;
    let body = b.chunks_spec(toks, gs)->Ok_0;
    assert(p.cipher_suites == cs && p.extensions == body);
    lemma_split_nonempty(parts[1], '-');
    lemma_split_nonempty(parts[3], '-');
    lemma_list_len(ctoks);
    lemma_list_len(gtoks);
    // the named groups are those of the groups field
    lemma_chunks_each(b, toks, gs);
    let k = choose|i: int|
        0 <= i < toks.len() && parse_u16_spec(#[trigger] toks[i]) == Some(EXT_NAMED_GROUPS);
    assert forall|i: int| 0 <= i < body.len() implies !(#[trigger] body[i] is GreasedNameGroups) && (
    body[i] matches ChunkModel::Extension(ExtModel::NamedGroups(g)) ==> g == gs) by {
        assert(parse_u16_spec(toks[i]) is Some);
        lemma_chunk_recognized(b, toks[i], gs, parse_u16_spec(toks[i])->Some_0);
    }
    lemma_chunk_recognized(b, toks[k], gs, EXT_NAMED_GROUPS);
    assert(body[k] == ChunkModel::Extension(ExtModel::NamedGroups(gs)));
    lemma_first_groups_found(body, gs);
    // the extension field
    lemma_types_round_trip(b, toks, gs);
    lemma_split_nonempty(parts[2], '-');
    let types = extension_types(body);
    // the five fields of the recomputed descriptor
    let f0 = decimal(771);
    let f1 = join_decimal(cs, '-');
    let f2 = join_decimal(types, '-');
    let f3 = join_decimal(gs, '-');
    let f4 = match first_formats(body) {
        Some(f) => join_decimal(f, '-'),
        None => Seq::<char>::empty(),
    };
    lemma_decimal_digits(771);
    lemma_no_comma(f0);
    lemma_join_chars(cs, '-');
    lemma_no_comma(f1);
    lemma_join_chars(types, '-');
    lemma_no_comma(f2);
    lemma_join_chars(gs, '-');
    lemma_no_comma(f3);
    match first_formats(body) {
        Some(f) => {
            lemma_join_chars(f, '-');
        },
        None => {},
    }
    lemma_no_comma(f4);
    let a1 = f0 + seq![','] + f1;
    let a2 = a1 + seq![','] + f2;
    let a3 = a2 + seq![','] + f3;
    assert(ja3_spec(p) =~= a3 + seq![','] + f4);
    lemma_split_concat(f0, f1, ',');
    lemma_split_concat(a1, f2, ',');
    lemma_split_concat(a2, f3, ',');
    lemma_split_concat(a3, f4, ',');
    let rparts = split_on(ja3_spec(p), ',');
    assert(rparts =~= seq![f0, f1, f2, f3, f4]);
    lemma_split_join(cs, '-');
    lemma_parse_decimals(cs);
    lemma_split_join(gs, '-');
    lemma_parse_decimals(gs);
    lemma_split_join(types, '-');
    assert(b.with_noise(body) == body);
}

} // verus!
