//! The override engine: the plan applied to the engine's natural extensions.
use crate::builder::{chunks_view, ChunkModel, ExtensionChunk};
use crate::extension::{
    check_grease, exts_view, grease_value, is_grease, ClientExtension, ExtModel, EXT_PADDING,
};
use crate::random::{random_byte, shuffle_in_place};
use crate::{JAOverride, PlanModel};
use vstd::prelude::*;

verus! {

/// The reserved value that a random byte selects.
pub fn grease_from_byte(b: u8) -> (r: u16)
    ensures
        r as int == grease_value((b % 16) as int),
        is_grease(r),
{
    let k = (b % 16) as u16;
    let r = 0x0a0a + k * 0x1010;
    assert((0x0a0a + k * 0x1010) % 0x1010 == 0x0a0a) by (nonlinear_arith)
        requires
            k < 16,
    ;
    r
}

fn draw_grease() -> (r: u16)
    ensures
        is_grease(r),
{
    grease_from_byte(random_byte())
}

/// The first natural extension of the server-name kind (or, with
/// `key_share`, of the key-share kind).
pub open spec fn natural_of(n: Seq<ExtModel>, key_share: bool) -> Option<ExtModel>
    decreases n.len(),
{
    if n.len() == 0 {
        None
    } else if (key_share && n[0] is KeyShare) || (!key_share && n[0] is ServerName) {
        Some(n[0])
    } else {
        natural_of(n.drop_first(), key_share)
    }
}

/// What one chunk emits, with `g` the reserved value drawn for it.
pub open spec fn emit_one(c: ChunkModel, n: Seq<ExtModel>, g: u16) -> Seq<ExtModel> {
    match c {
        ChunkModel::Grease => seq![ExtModel::Unknown(g, Seq::<u8>::empty())],
        ChunkModel::Sni => match natural_of(n, false) {
            Some(e) => seq![e],
            None => Seq::<ExtModel>::empty(),
        },
        ChunkModel::KeyShare => match natural_of(n, true) {
            Some(e) => seq![e],
            None => Seq::<ExtModel>::empty(),
        },
        ChunkModel::GreasedNameGroups(v) => seq![ExtModel::NamedGroups(seq![g] + v)],
        ChunkModel::GreasedTLSVersion(v) => seq![ExtModel::SupportedVersions(seq![g] + v)],
        ChunkModel::Extension(e) => seq![e],
    }
}

/// What a chunk sequence emits, with `gs[i]` the reserved value drawn for chunk `i`.
pub open spec fn emit_spec(cs: Seq<ChunkModel>, n: Seq<ExtModel>, gs: Seq<u16>) -> Seq<ExtModel>
    decreases cs.len(),
{
    if cs.len() == 0 {
        Seq::<ExtModel>::empty()
    } else {
        emit_spec(cs.drop_last(), n, gs.drop_last()) + emit_one(cs.last(), n, gs.last())
    }
}

/// An emitted extension that may move in a shuffle when it ends the range:
/// neither a reserved-value marker nor padding.
pub open spec fn is_movable_end(e: ExtModel) -> bool {
    !e.is_noise() && e.ext_type() != EXT_PADDING
}

/// The first index at or after `i` that is not a reserved-value marker.
pub open spec fn first_non_noise(s: Seq<ExtModel>, i: int) -> Option<int>
    decreases s.len() - i,
{
    if i < 0 || i >= s.len() {
        None
    } else if !s[i].is_noise() {
        Some(i)
    } else {
        first_non_noise(s, i + 1)
    }
}

/// The last index below `k` that is neither a marker nor padding.
pub open spec fn last_movable(s: Seq<ExtModel>, k: int) -> Option<int>
    decreases k,
{
    if k <= 0 || k > s.len() {
        None
    } else if is_movable_end(s[k - 1]) {
        Some(k - 1)
    } else {
        last_movable(s, k - 1)
    }
}

/// The inclusive range of emitted extensions that a shuffle permutes.
pub open spec fn shuffle_range_spec(s: Seq<ExtModel>) -> Option<(int, int)> {
    match (first_non_noise(s, 0), last_movable(s, s.len() as int)) {
        (Some(f), Some(l)) => Some((f, l)),
        _ => None,
    }
}

proof fn lemma_first_le_last(s: Seq<ExtModel>, i: int, l: int)
    requires
        0 <= i <= l < s.len(),
        is_movable_end(s[l]),
    ensures
        first_non_noise(s, i) matches Some(f) && i <= f <= l,
    decreases l - i,
{
    if s[i].is_noise() {
        lemma_first_le_last(s, i + 1, l);
    }
}

proof fn lemma_last_in(s: Seq<ExtModel>, k: int)
    requires
        0 <= k <= s.len(),
    ensures
        last_movable(s, k) matches Some(l) ==> 0 <= l < k && is_movable_end(s[l]),
    decreases k,
{
    if k > 0 && !is_movable_end(s[k - 1]) {
        lemma_last_in(s, k - 1);
    }
}

/// What the shuffle step may return from the materialized sequence `m`:
/// `m` itself, or, with shuffling on and a range found, `m` with that
/// range permuted and everything outside it in place.
pub open spec fn shuffled_from(r: Seq<ClientExtension>, m: Seq<ClientExtension>, shuffle: bool) -> bool {
    match shuffle_range_spec(exts_view(m)) {
        Some((f, l)) if shuffle => {
            &&& r.len() == m.len()
            &&& r.subrange(0, f) == m.subrange(0, f)
            &&& r.subrange(l + 1, r.len() as int) == m.subrange(l + 1, m.len() as int)
            &&& r.subrange(f, l + 1).to_multiset() == m.subrange(f, l + 1).to_multiset()
        },
        _ => r == m,
    }
}

/// All values of `gs` are reserved values.
pub open spec fn all_grease(gs: Seq<u16>) -> bool {
    forall|i: int| 0 <= i < gs.len() ==> is_grease(#[trigger] gs[i])
}

/// One outcome of an override: reserved values `gs` were drawn, the plan
/// materialized to `m`, and `r` came out of the shuffle step.
pub open spec fn override_outcome(
    plan: PlanModel,
    natural: Seq<ExtModel>,
    gs: Seq<u16>,
    m: Seq<ClientExtension>,
    r: Seq<ClientExtension>,
) -> bool {
    &&& gs.len() == plan.extensions.len()
    &&& all_grease(gs)
    &&& exts_view(m) == emit_spec(plan.extensions, natural, gs)
    &&& shuffled_from(r, m, plan.shuffle_extension)
}

fn is_noise_ext(e: &ClientExtension) -> (r: bool)
    ensures
        r == e@.is_noise(),
{
    match e {
        ClientExtension::Unknown(t, p) => check_grease(*t) && p.len() == 0,
        _ => false,
    }
}

fn movable_end(e: &ClientExtension) -> (r: bool)
    ensures
        r == is_movable_end(e@),
{
    !is_noise_ext(e) && e.get_ext_type() != EXT_PADDING
}

/// The first natural extension of the wanted kind.
fn find_natural(n: &Vec<ClientExtension>, key_share: bool) -> (r: Option<&ClientExtension>)
    ensures
        match r {
            Some(e) => natural_of(exts_view(n@), key_share) == Some(e@),
            None => natural_of(exts_view(n@), key_share) is None,
        },
{
    let mut i: usize = 0;
    assert(exts_view(n@).subrange(0, n@.len() as int) =~= exts_view(n@));
    while i < n.len()
        invariant
            i <= n@.len(),
            natural_of(exts_view(n@), key_share) == natural_of(
                exts_view(n@).subrange(i as int, n@.len() as int),
                key_share,
            ),
        decreases n@.len() - i,
    {
        let ghost rest = exts_view(n@).subrange(i as int, n@.len() as int);
        assert(rest.drop_first() =~= exts_view(n@).subrange(i as int + 1, n@.len() as int));
        let hit = match &n[i] {
            ClientExtension::KeyShare(_) => key_share,
            ClientExtension::ServerName(_) => !key_share,
            _ => false,
        };
        if hit {
            return Some(&n[i]);
        }
        i += 1;
    }
    None
}

/// The inclusive range of `exts` that a shuffle permutes: from the first
/// entry that is not a reserved-value marker to the last that is neither a
/// marker nor padding.
pub fn shuffle_range(exts: &Vec<ClientExtension>) -> (r: Option<(usize, usize)>)
    ensures
        match r {
            Some((f, l)) => shuffle_range_spec(exts_view(exts@)) == Some(
                (f as int, l as int),
            ) && f <= l < exts@.len(),
            None => shuffle_range_spec(exts_view(exts@)) is None,
        },
{
    let ghost s = exts_view(exts@);
    let n = exts.len();
    let mut k: usize = n;
    while k > 0 && !movable_end(&exts[k - 1])
        invariant
            k <= n,
            n == exts@.len(),
            s == exts_view(exts@),
            last_movable(s, n as int) == last_movable(s, k as int),
        decreases k,
    {
        k -= 1;
    }
    if k == 0 {
        return None;
    }
    let l = k - 1;
    proof {
        lemma_first_le_last(s, 0, l as int);
    }
    let mut i: usize = 0;
    while i < l && is_noise_ext(&exts[i])
        invariant
            i <= l < n,
            n == exts@.len(),
            s == exts_view(exts@),
            is_movable_end(s[l as int]),
            last_movable(s, n as int) == Some(l as int),
            first_non_noise(s, 0) == first_non_noise(s, i as int),
            first_non_noise(s, i as int) matches Some(f) && i <= f <= l,
        decreases l - i,
    {
        i += 1;
        proof {
            lemma_first_le_last(s, i as int, l as int);
        }
    }
    Some((i, l))
}

impl JAOverride {
    /// The emitted extensions before any shuffle, with `greases[i]` the
    /// reserved value used by chunk `i`.
    pub fn materialize(&self, natural: &Vec<ClientExtension>, greases: &Vec<u16>) -> (r: Vec<
        ClientExtension,
    >)
        requires
            greases@.len() == self.extensions@.len(),
        ensures
            exts_view(r@) == emit_spec(self@.extensions, exts_view(natural@), greases@),
    {
        let ghost cs = self@.extensions;
        let ghost nv = exts_view(natural@);
        let mut res: Vec<ClientExtension> = Vec::new();
        let mut i: usize = 0;
        assert(cs.subrange(0, 0) =~= Seq::<ChunkModel>::empty());
        assert(exts_view(res@) =~= Seq::<ExtModel>::empty());
        while i < self.extensions.len()
            invariant
                i <= self.extensions@.len(),
                greases@.len() == self.extensions@.len(),
                cs == chunks_view(self.extensions@),
                nv == exts_view(natural@),
                exts_view(res@) == emit_spec(
                    cs.subrange(0, i as int),
                    nv,
                    greases@.subrange(0, i as int),
                ),
            decreases self.extensions@.len() - i,
        {
            let g = greases[i];
            let ghost before = exts_view(res@);
            let ghost cur = cs.subrange(0, i as int + 1);
            let ghost gcur = greases@.subrange(0, i as int + 1);
            assert(cur.drop_last() =~= cs.subrange(0, i as int));
            assert(gcur.drop_last() =~= greases@.subrange(0, i as int));
            let ghost one = emit_one(cs[i as int], nv, g);
            match &self.extensions[i] {
                ExtensionChunk::Grease => {
                    res.push(ClientExtension::Unknown(g, Vec::new()));
                },
                ExtensionChunk::Sni => {
                    if let Some(e) = find_natural(natural, false) {
                        res.push(e.duplicate());
                    }
                },
                ExtensionChunk::KeyShare => {
                    if let Some(e) = find_natural(natural, true) {
                        res.push(e.duplicate());
                    }
                },
                ExtensionChunk::Extension(e) => {
                    res.push(e.duplicate());
                },
                ExtensionChunk::GreasedNameGroups(v) => {
                    let mut groups: Vec<u16> = Vec::new();
                    groups.push(g);
                    let mut rest = v.clone();
                    groups.append(&mut rest);
                    assert(groups@ =~= seq![g] + v@);
                    res.push(ClientExtension::NamedGroups(groups));
                },
                ExtensionChunk::GreasedTLSVersion(v) => {
                    let mut versions: Vec<u16> = Vec::new();
                    versions.push(g);
                    let mut rest = v.clone();
                    versions.append(&mut rest);
                    assert(versions@ =~= seq![g] + v@);
                    res.push(ClientExtension::SupportedVersions(versions));
                },
            }
            assert(exts_view(res@) =~= before + one);
            i += 1;
        }
        assert(cs.subrange(0, i as int) =~= cs);
        assert(greases@.subrange(0, i as int) =~= greases@);
        res
    }

    /// The cipher suites to send: the plan's, whatever the engine proposed.
    pub fn override_cipher_suites(&self, _cipher_suites: Vec<u16>) -> (r: Vec<u16>)
        ensures
            r@ == self.cipher_suites@,
    {
        let r = self.cipher_suites.clone();
        assert(r@ =~= self.cipher_suites@);
        r
    }

    /// The extensions to send, built from the plan and the engine's natural
    /// extensions: each chunk materialized with a freshly drawn reserved
    /// value where it needs one, then, if the plan says so, the interior
    /// range shuffled.
    pub fn override_extensions(&self, extensions: Vec<ClientExtension>) -> (r: Vec<ClientExtension>)
        ensures
            exists|gs: Seq<u16>, m: Seq<ClientExtension>|
                #[trigger] override_outcome(self@, exts_view(extensions@), gs, m, r@),
    {
        let mut greases: Vec<u16> = Vec::new();
        let mut i: usize = 0;
        while i < self.extensions.len()
            invariant
                i <= self.extensions@.len(),
                greases@.len() == i,
                all_grease(greases@),
            decreases self.extensions@.len() - i,
        {
            greases.push(draw_grease());
            i += 1;
        }
        let m = self.materialize(&extensions, &greases);
        let ghost mv = m@;
        if self.shuffle_extension {
            match shuffle_range(&m) {
                Some((f, l)) => {
                    let mut res = m;
                    let len = res.len();
                    assert(l < len);
                    let mut tail = res.split_off(l + 1);
                    let mut mid = res.split_off(f);
                    let ghost mid0 = mid@;
                    shuffle_in_place(&mut mid);
                    let ghost mid1 = mid@;
                    res.append(&mut mid);
                    res.append(&mut tail);
                    assert(res@.subrange(0, f as int) =~= mv.subrange(0, f as int));
                    assert(res@.subrange(l + 1, res@.len() as int) =~= mv.subrange(
                        l + 1,
                        mv.len() as int,
                    ));
                    assert(mid0 =~= mv.subrange(f as int, l + 1));
                    assert(res@.subrange(f as int, l + 1) =~= mid1);
                    assert(override_outcome(self@, exts_view(extensions@), greases@, mv, res@));
                    return res;
                },
                None => {},
            }
        }
        assert(override_outcome(self@, exts_view(extensions@), greases@, mv, m@));
        m
    }
}

/// The extension types of the non-marker entries of `s`, in order.
pub open spec fn non_noise_types(s: Seq<ExtModel>) -> Seq<u16>
    decreases s.len(),
{
    if s.len() == 0 {
        Seq::<u16>::empty()
    } else if s.last().is_noise() {
        non_noise_types(s.drop_last())
    } else {
        non_noise_types(s.drop_last()).push(s.last().ext_type())
    }
}

/// The type a chunk is planned to contribute: none for a marker (or a
/// literal that is one), none for a graft whose natural extension is absent.
pub open spec fn planned_type(c: ChunkModel, n: Seq<ExtModel>) -> Seq<u16> {
    match c {
        ChunkModel::Grease => Seq::<u16>::empty(),
        ChunkModel::Sni => if natural_of(n, false) is Some {
            seq![crate::extension::EXT_SERVER_NAME]
        } else {
            Seq::<u16>::empty()
        },
        ChunkModel::KeyShare => if natural_of(n, true) is Some {
            seq![crate::extension::EXT_KEY_SHARE]
        } else {
            Seq::<u16>::empty()
        },
        ChunkModel::GreasedNameGroups(_) => seq![crate::extension::EXT_NAMED_GROUPS],
        ChunkModel::GreasedTLSVersion(_) => seq![crate::extension::EXT_SUPPORTED_VERSIONS],
        ChunkModel::Extension(e) => if e.is_noise() {
            Seq::<u16>::empty()
        } else {
            seq![e.ext_type()]
        },
    }
}

/// The planned types of a chunk sequence, in order.
pub open spec fn planned_types(cs: Seq<ChunkModel>, n: Seq<ExtModel>) -> Seq<u16>
    decreases cs.len(),
{
    if cs.len() == 0 {
        Seq::<u16>::empty()
    } else {
        planned_types(cs.drop_last(), n) + planned_type(cs.last(), n)
    }
}

proof fn lemma_non_noise_concat(a: Seq<ExtModel>, b: Seq<ExtModel>)
    ensures
        non_noise_types(a + b) == non_noise_types(a) + non_noise_types(b),
    decreases b.len(),
{
    if b.len() == 0 {
        assert(a + b =~= a);
        assert(non_noise_types(a) + non_noise_types(b) =~= non_noise_types(a));
    } else {
        assert((a + b).drop_last() =~= a + b.drop_last());
        lemma_non_noise_concat(a, b.drop_last());
        if b.last().is_noise() {
        } else {
            assert(non_noise_types(a + b) =~= non_noise_types(a) + non_noise_types(b));
        }
    }
}

proof fn lemma_non_noise_one(c: ChunkModel, n: Seq<ExtModel>, g: u16)
    requires
        is_grease(g),
    ensures
        non_noise_types(emit_one(c, n, g)) == planned_type(c, n),
{
    let e = emit_one(c, n, g);
    if e.len() == 1 {
        assert(e.drop_last() =~= Seq::<ExtModel>::empty());
        assert(non_noise_types(e.drop_last()) == Seq::<u16>::empty());
        if e[0].is_noise() {
            assert(non_noise_types(e) =~= Seq::<u16>::empty());
        } else {
            assert(non_noise_types(e) =~= seq![e[0].ext_type()]);
        }
    }
    match c {
        ChunkModel::Sni => {
            if let Some(x) = natural_of(n, false) {
                lemma_natural_kind(n, false);
            }
        },
        ChunkModel::KeyShare => {
            if let Some(x) = natural_of(n, true) {
                lemma_natural_kind(n, true);
            }
        },
        _ => {},
    }
    assert(non_noise_types(e) =~= planned_type(c, n));
}

proof fn lemma_natural_kind(n: Seq<ExtModel>, key_share: bool)
    ensures
        natural_of(n, key_share) matches Some(e) ==> if key_share {
            e is KeyShare
        } else {
            e is ServerName
        },
    decreases n.len(),
{
    if n.len() > 0 {
        lemma_natural_kind(n.drop_first(), key_share);
    }
}

/// Emission keeps the plan's order: leaving out the reserved-value markers,
/// the emitted extension types are the chunks' types in plan order, with
/// only the grafts whose natural extension is absent missing.
pub proof fn lemma_emission_keeps_order(cs: Seq<ChunkModel>, n: Seq<ExtModel>, gs: Seq<u16>)
    requires
        gs.len() == cs.len(),
        all_grease(gs),
    ensures
        non_noise_types(emit_spec(cs, n, gs)) == planned_types(cs, n),
    decreases cs.len(),
{
    if cs.len() > 0 {
        lemma_emission_keeps_order(cs.drop_last(), n, gs.drop_last());
        lemma_non_noise_concat(
            emit_spec(cs.drop_last(), n, gs.drop_last()),
            emit_one(cs.last(), n, gs.last()),
        );
        assert(is_grease(gs[gs.len() - 1]));
        lemma_non_noise_one(cs.last(), n, gs.last());
    }
}

/// Without shuffling, every outcome of `override_extensions` lists the
/// non-marker extensions in the plan's order.
pub proof fn lemma_override_keeps_order(
    plan: PlanModel,
    natural: Seq<ExtModel>,
    gs: Seq<u16>,
    m: Seq<ClientExtension>,
    r: Seq<ClientExtension>,
)
    requires
        !plan.shuffle_extension,
        override_outcome(plan, natural, gs, m, r),
    ensures
        non_noise_types(exts_view(r)) == planned_types(plan.extensions, natural),
{
    lemma_emission_keeps_order(plan.extensions, natural, gs);
}

/// A shuffle leaves the ends in place: every entry before the range is a
/// reserved-value marker, and every entry after it is a marker or padding.
pub proof fn lemma_shuffle_range_anchors(s: Seq<ExtModel>)
    ensures
        shuffle_range_spec(s) matches Some((f, l)) ==> {
            &&& 0 <= f <= l < s.len()
            &&& forall|i: int| 0 <= i < f ==> (#[trigger] s[i]).is_noise()
            &&& forall|i: int| l < i < s.len() ==> !is_movable_end(#[trigger] s[i])
        },
{
    lemma_first_prefix(s, 0);
    lemma_last_suffix(s, s.len() as int);
    lemma_last_in(s, s.len() as int);
    if let Some(l) = last_movable(s, s.len() as int) {
        lemma_first_le_last(s, 0, l);
    }
}

proof fn lemma_first_prefix(s: Seq<ExtModel>, i: int)
    requires
        0 <= i,
    ensures
        first_non_noise(s, i) matches Some(f) ==> i <= f < s.len() && forall|k: int|
            i <= k < f ==> (#[trigger] s[k]).is_noise(),
    decreases s.len() - i,
{
    if i < s.len() && s[i].is_noise() {
        lemma_first_prefix(s, i + 1);
    }
}

proof fn lemma_last_suffix(s: Seq<ExtModel>, k: int)
    requires
        0 <= k <= s.len(),
    ensures
        last_movable(s, k) matches Some(l) ==> forall|i: int|
            l < i < k ==> !is_movable_end(#[trigger] s[i]),
    decreases k,
{
    if k > 0 && !is_movable_end(s[k - 1]) {
        lemma_last_suffix(s, k - 1);
    }
}

} // verus!
