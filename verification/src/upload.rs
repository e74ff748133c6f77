//! The upload engine's pure core: the wanted-asset mapping for a release,
//! the set of wanted sources missing locally, and the preparation of the
//! upload endpoint path.

use vstd::prelude::*;
use crate::byteseq::{concat_bytes, contains_bytes, contains_seq, eq_bytes, has_prefix,
    has_suffix, ends_with, starts_with, subvec};
use crate::lit::{
    dash, ext_tar_gz, ext_tar_zst, full_marker, install_only, install_only_stripped,
    placeholder, plus, project, spec_dash, spec_ext_tar_gz, spec_ext_tar_zst, spec_full_marker,
    spec_install_only, spec_install_only_stripped, spec_placeholder, spec_plus, spec_project,
};
use crate::classify::{is_version_token, next_dash};
use crate::registry::{lemma_deep_is_view, Registry, triple_of};
use crate::retry::name_present;
use crate::version::{pep440_release_of, release_at_least, release_ge};

verus! {

/// One wanted release asset: the locally produced source filename and the
/// canonical destination filename on the release.
pub struct WantedAsset {
    pub source: Vec<u8>,
    pub dest: Vec<u8>,
}

/// A version present locally: its token as it stands in filenames, and its
/// parsed release components.
pub struct VersionEntry {
    pub token: Vec<u8>,
    pub release: Vec<u64>,
}

/// A CI-produced filename: project, version, triple, suffix, timestamp,
/// extension.
pub open spec fn spec_source_name(
    v: Seq<u8>,
    triple: Seq<u8>,
    sfx: Seq<u8>,
    dt: Seq<u8>,
    ext: Seq<u8>,
) -> Seq<u8> {
    spec_project() + spec_dash() + v + spec_dash() + triple + spec_dash() + sfx + spec_dash()
        + dt + ext
}

/// A release-facing full-archive filename.
pub open spec fn spec_dest_full(v: Seq<u8>, tag: Seq<u8>, triple: Seq<u8>, sfx: Seq<u8>) -> Seq<
    u8,
> {
    spec_project() + spec_dash() + v + spec_plus() + tag + spec_dash() + triple + spec_dash()
        + sfx + spec_dash() + spec_full_marker() + spec_ext_tar_zst()
}

/// A release-facing install-only filename.
pub open spec fn spec_dest_io(v: Seq<u8>, tag: Seq<u8>, triple: Seq<u8>, sfx: Seq<u8>) -> Seq<
    u8,
> {
    spec_project() + spec_dash() + v + spec_plus() + tag + spec_dash() + triple + spec_dash()
        + sfx + spec_ext_tar_gz()
}

/// Build a CI-produced filename.
pub fn source_name(
    v: &Vec<u8>,
    triple: &Vec<u8>,
    sfx: &Vec<u8>,
    dt: &Vec<u8>,
    ext: &Vec<u8>,
) -> (r: Vec<u8>)
    ensures
        r@ == spec_source_name(v@, triple@, sfx@, dt@, ext@),
{
    let mut s = project();
    s = concat_bytes(s, &dash());
    s = concat_bytes(s, v);
    s = concat_bytes(s, &dash());
    s = concat_bytes(s, triple);
    s = concat_bytes(s, &dash());
    s = concat_bytes(s, sfx);
    s = concat_bytes(s, &dash());
    s = concat_bytes(s, dt);
    s = concat_bytes(s, ext);
    s
}

/// Build a release-facing full-archive filename.
pub fn dest_full(v: &Vec<u8>, tag: &Vec<u8>, triple: &Vec<u8>, sfx: &Vec<u8>) -> (r: Vec<u8>)
    ensures
        r@ == spec_dest_full(v@, tag@, triple@, sfx@),
{
    let mut s = project();
    s = concat_bytes(s, &dash());
    s = concat_bytes(s, v);
    s = concat_bytes(s, &plus());
    s = concat_bytes(s, tag);
    s = concat_bytes(s, &dash());
    s = concat_bytes(s, triple);
    s = concat_bytes(s, &dash());
    s = concat_bytes(s, sfx);
    s = concat_bytes(s, &dash());
    s = concat_bytes(s, &full_marker());
    s = concat_bytes(s, &ext_tar_zst());
    s
}

/// Build a release-facing install-only filename.
pub fn dest_io(v: &Vec<u8>, tag: &Vec<u8>, triple: &Vec<u8>, sfx: &Vec<u8>) -> (r: Vec<u8>)
    ensures
        r@ == spec_dest_io(v@, tag@, triple@, sfx@),
{
    let mut s = project();
    s = concat_bytes(s, &dash());
    s = concat_bytes(s, v);
    s = concat_bytes(s, &plus());
    s = concat_bytes(s, tag);
    s = concat_bytes(s, &dash());
    s = concat_bytes(s, triple);
    s = concat_bytes(s, &dash());
    s = concat_bytes(s, sfx);
    s = concat_bytes(s, &ext_tar_gz());
    s
}

/// The target's optional version constraint admits the release `rel`.
pub open spec fn target_allows(reg: &Registry, i: int, rel: Seq<u64>) -> bool {
    match reg.targets@[i].version_min {
        Some(m) => release_ge(rel, m@),
        None => true,
    }
}

/// `p` is one of the wanted pairs of version `v` and target `i`: a full
/// archive per accepted suffix, and the two derived install-only entries.
pub open spec fn pair_for(
    v: Seq<u8>,
    reg: &Registry,
    i: int,
    tag: Seq<u8>,
    dt: Seq<u8>,
    p: (Seq<u8>, Seq<u8>),
) -> bool {
    ||| exists|k: int|
        0 <= k < reg.targets@[i].accepted_suffixes@.len() && p == (
            spec_source_name(
                v,
                triple_of(reg, i),
                reg.targets@[i].accepted_suffixes@[k]@,
                dt,
                spec_ext_tar_zst(),
            ),
            spec_dest_full(v, tag, triple_of(reg, i), reg.targets@[i].accepted_suffixes@[k]@),
        )
    ||| p == (
        spec_source_name(v, triple_of(reg, i), spec_install_only(), dt, spec_ext_tar_gz()),
        spec_dest_io(v, tag, triple_of(reg, i), spec_install_only()),
    )
    ||| p == (
        spec_source_name(
            v,
            triple_of(reg, i),
            spec_install_only_stripped(),
            dt,
            spec_ext_tar_gz(),
        ),
        spec_dest_io(v, tag, triple_of(reg, i), spec_install_only_stripped()),
    )
}

/// `p` is a wanted pair of some version in `versions` and some target.
pub open spec fn wanted_pair(
    versions: Seq<VersionEntry>,
    reg: &Registry,
    tag: Seq<u8>,
    dt: Seq<u8>,
    p: (Seq<u8>, Seq<u8>),
) -> bool {
    exists|vi: int, i: int|
        {
            &&& 0 <= vi < versions.len()
            &&& 0 <= i < reg.targets@.len()
            &&& target_allows(reg, i, versions[vi].release@)
            &&& #[trigger] pair_for(versions[vi].token@, reg, i, tag, dt, p)
        }
}

/// `p` stands somewhere in the asset list `w`.
pub open spec fn pair_listed(w: Seq<WantedAsset>, p: (Seq<u8>, Seq<u8>)) -> bool {
    exists|idx: int| 0 <= idx < w.len() && w[idx].source@ == p.0 && w[idx].dest@ == p.1
}

/// Append the wanted assets of one version and one target.
fn push_target_assets(
    r: &mut Vec<WantedAsset>,
    v: &VersionEntry,
    reg: &Registry,
    ti: usize,
    tag: &Vec<u8>,
    dt: &Vec<u8>,
)
    requires
        ti < reg.targets@.len(),
    ensures
        final(r)@.len() >= old(r)@.len(),
        forall|idx: int| 0 <= idx < old(r)@.len() ==> final(r)@[idx] == old(r)@[idx],
        forall|idx: int|
            old(r)@.len() <= idx < final(r)@.len() ==> target_allows(reg, ti as int, v.release@)
                && pair_for(
                v.token@,
                reg,
                ti as int,
                tag@,
                dt@,
                (final(r)@[idx].source@, final(r)@[idx].dest@),
            ),
        forall|p: (Seq<u8>, Seq<u8>)|
            target_allows(reg, ti as int, v.release@) && #[trigger] pair_for(
                v.token@,
                reg,
                ti as int,
                tag@,
                dt@,
                p,
            ) ==> pair_listed(final(r)@, p),
{
    let allowed = match &reg.targets[ti].version_min {
        Some(m) => release_at_least(&v.release, m),
        None => true,
    };
    if !allowed {
        return;
    }
    let ghost base = r@.len();
    proof {
        assert(base == old(r)@.len());
    }
    let triple = &reg.targets[ti].triple;
    let n_sfx = reg.targets[ti].accepted_suffixes.len();
    let mut k: usize = 0;
    while k < n_sfx
        invariant
            ti < reg.targets@.len(),
            n_sfx == reg.targets@[ti as int].accepted_suffixes@.len(),
            k <= n_sfx,
            r@.len() >= base,
            base == old(r)@.len(),
            forall|idx: int| 0 <= idx < base ==> r@[idx] == old(r)@[idx],
            forall|idx: int|
                base <= idx < r@.len() ==> pair_for(
                    v.token@,
                    reg,
                    ti as int,
                    tag@,
                    dt@,
                    (r@[idx].source@, r@[idx].dest@),
                ),
            forall|k2: int|
                0 <= k2 < k ==> pair_listed(
                    r@,
                    (
                        spec_source_name(
                            v.token@,
                            triple_of(reg, ti as int),
                            reg.targets@[ti as int].accepted_suffixes@[k2]@,
                            dt@,
                            spec_ext_tar_zst(),
                        ),
                        spec_dest_full(
                            v.token@,
                            tag@,
                            triple_of(reg, ti as int),
                            reg.targets@[ti as int].accepted_suffixes@[k2]@,
                        ),
                    ),
                ),
        decreases n_sfx - k,
    {
        let triple_k = &reg.targets[ti].triple;
        let sfx = &reg.targets[ti].accepted_suffixes[k];
        let ghost sfxv = sfx@;
        let src = source_name(&v.token, triple_k, sfx, dt, &ext_tar_zst());
        let dst = dest_full(&v.token, tag, triple_k, sfx);
        let ghost srcv = src@;
        let ghost dstv = dst@;
        let ghost prev = r@;
        r.push(WantedAsset { source: src, dest: dst });
        proof {
            assert(r@.len() == prev.len() + 1);
            assert(r@[prev.len() as int].source@ == srcv);
            assert(r@[prev.len() as int].dest@ == dstv);
            assert forall|k2: int|
                0 <= k2 < k + 1 implies pair_listed(
                r@,
                (
                    spec_source_name(
                        v.token@,
                        triple_of(reg, ti as int),
                        reg.targets@[ti as int].accepted_suffixes@[k2]@,
                        dt@,
                        spec_ext_tar_zst(),
                    ),
                    spec_dest_full(
                        v.token@,
                        tag@,
                        triple_of(reg, ti as int),
                        reg.targets@[ti as int].accepted_suffixes@[k2]@,
                    ),
                ),
            ) by {
                let q = (
                    spec_source_name(
                        v.token@,
                        triple_of(reg, ti as int),
                        reg.targets@[ti as int].accepted_suffixes@[k2]@,
                        dt@,
                        spec_ext_tar_zst(),
                    ),
                    spec_dest_full(
                        v.token@,
                        tag@,
                        triple_of(reg, ti as int),
                        reg.targets@[ti as int].accepted_suffixes@[k2]@,
                    ),
                );
                if k2 < k {
                    assert(pair_listed(prev, q));
                    let idx = choose|idx: int|
                        0 <= idx < prev.len() && prev[idx].source@ == q.0 && prev[idx].dest@
                            == q.1;
                    assert(r@[idx].source@ == q.0 && r@[idx].dest@ == q.1);
                    assert(pair_listed(r@, q));
                } else {
                    assert(sfxv == reg.targets@[ti as int].accepted_suffixes@[k2]@);
                    assert(r@[prev.len() as int].source@ == q.0);
                    assert(r@[prev.len() as int].dest@ == q.1);
                    assert(pair_listed(r@, q));
                }
            }
        }
        k = k + 1;
    }
    let src_io = source_name(&v.token, triple, &install_only(), dt, &ext_tar_gz());
    let dst_io = dest_io(&v.token, tag, triple, &install_only());
    let ghost before_io = r@;
    r.push(WantedAsset { source: src_io, dest: dst_io });
    let src_ios = source_name(&v.token, triple, &install_only_stripped(), dt, &ext_tar_gz());
    let dst_ios = dest_io(&v.token, tag, triple, &install_only_stripped());
    let ghost before_ios = r@;
    r.push(WantedAsset { source: src_ios, dest: dst_ios });
    proof {
        let s = r@;
        let io_idx = s.len() - 2;
        let ios_idx = s.len() - 1;
        assert(s[io_idx].source@ == spec_source_name(
            v.token@,
            triple_of(reg, ti as int),
            spec_install_only(),
            dt@,
            spec_ext_tar_gz(),
        ));
        assert(s[ios_idx].source@ == spec_source_name(
            v.token@,
            triple_of(reg, ti as int),
            spec_install_only_stripped(),
            dt@,
            spec_ext_tar_gz(),
        ));
        assert forall|p: (Seq<u8>, Seq<u8>)|
            target_allows(reg, ti as int, v.release@) && #[trigger] pair_for(
                v.token@,
                reg,
                ti as int,
                tag@,
                dt@,
                p,
            ) implies pair_listed(s, p) by {
            if exists|k2: int|
                0 <= k2 < reg.targets@[ti as int].accepted_suffixes@.len() && p == (
                    spec_source_name(
                        v.token@,
                        triple_of(reg, ti as int),
                        reg.targets@[ti as int].accepted_suffixes@[k2]@,
                        dt@,
                        spec_ext_tar_zst(),
                    ),
                    spec_dest_full(
                        v.token@,
                        tag@,
                        triple_of(reg, ti as int),
                        reg.targets@[ti as int].accepted_suffixes@[k2]@,
                    ),
                ) {
                let k2 = choose|k2: int|
                    0 <= k2 < reg.targets@[ti as int].accepted_suffixes@.len() && p == (
                        spec_source_name(
                            v.token@,
                            triple_of(reg, ti as int),
                            reg.targets@[ti as int].accepted_suffixes@[k2]@,
                            dt@,
                            spec_ext_tar_zst(),
                        ),
                        spec_dest_full(
                            v.token@,
                            tag@,
                            triple_of(reg, ti as int),
                            reg.targets@[ti as int].accepted_suffixes@[k2]@,
                        ),
                    );
                let q = p;
                let idx = choose|idx: int|
                    0 <= idx < before_io.len() && before_io[idx].source@ == q.0
                        && before_io[idx].dest@ == q.1;
                assert(s[idx].source@ == q.0 && s[idx].dest@ == q.1);
            } else if p == (
                spec_source_name(
                    v.token@,
                    triple_of(reg, ti as int),
                    spec_install_only(),
                    dt@,
                    spec_ext_tar_gz(),
                ),
                spec_dest_io(v.token@, tag@, triple_of(reg, ti as int), spec_install_only()),
            ) {
                assert(s[io_idx].source@ == p.0 && s[io_idx].dest@ == p.1);
            } else {
                assert(s[ios_idx].source@ == p.0 && s[ios_idx].dest@ == p.1);
            }
        }
    }
}

/// Compute the wanted assets of a release: for every version present and
/// every target whose constraint admits it, one full archive per accepted
/// suffix and the two derived install-only entries.
pub fn wanted_assets(
    versions: &Vec<VersionEntry>,
    reg: &Registry,
    tag: &Vec<u8>,
    dt: &Vec<u8>,
) -> (r: Vec<WantedAsset>)
    ensures
        forall|idx: int|
            0 <= idx < r@.len() ==> wanted_pair(
                versions@,
                reg,
                tag@,
                dt@,
                (r@[idx].source@, r@[idx].dest@),
            ),
        forall|p: (Seq<u8>, Seq<u8>)|
            #[trigger] wanted_pair(versions@, reg, tag@, dt@, p) ==> pair_listed(r@, p),
{
    let mut r: Vec<WantedAsset> = Vec::new();
    let mut vi: usize = 0;
    while vi < versions.len()
        invariant
            vi <= versions@.len(),
            forall|idx: int|
                0 <= idx < r@.len() ==> wanted_pair(
                    versions@,
                    reg,
                    tag@,
                    dt@,
                    (r@[idx].source@, r@[idx].dest@),
                ),
            forall|vi2: int, i: int, p: (Seq<u8>, Seq<u8>)|
                {
                    &&& 0 <= vi2 < vi
                    &&& 0 <= i < reg.targets@.len()
                    &&& target_allows(reg, i, versions@[vi2].release@)
                    &&& #[trigger] pair_for(versions@[vi2].token@, reg, i, tag@, dt@, p)
                } ==> pair_listed(r@, p),
        decreases versions.len() - vi,
    {
        let v = &versions[vi];
        let mut ti: usize = 0;
        while ti < reg.targets.len()
            invariant
                vi < versions@.len(),
                ti <= reg.targets@.len(),
                v == &versions@[vi as int],
                forall|idx: int|
                    0 <= idx < r@.len() ==> wanted_pair(
                        versions@,
                        reg,
                        tag@,
                        dt@,
                        (r@[idx].source@, r@[idx].dest@),
                    ),
                forall|vi2: int, i: int, p: (Seq<u8>, Seq<u8>)|
                    {
                        &&& 0 <= vi2 < vi
                        &&& 0 <= i < reg.targets@.len()
                        &&& target_allows(reg, i, versions@[vi2].release@)
                        &&& #[trigger] pair_for(versions@[vi2].token@, reg, i, tag@, dt@, p)
                    } ==> pair_listed(r@, p),
                forall|i: int, p: (Seq<u8>, Seq<u8>)|
                    {
                        &&& 0 <= i < ti
                        &&& target_allows(reg, i, versions@[vi as int].release@)
                        &&& #[trigger] pair_for(versions@[vi as int].token@, reg, i, tag@, dt@, p)
                    } ==> pair_listed(r@, p),
            decreases reg.targets.len() - ti,
        {
            let ghost prev = r@;
            push_target_assets(&mut r, v, reg, ti, tag, dt);
            proof {
                assert forall|idx: int|
                    0 <= idx < r@.len() implies wanted_pair(
                    versions@,
                    reg,
                    tag@,
                    dt@,
                    (r@[idx].source@, r@[idx].dest@),
                ) by {
                    if idx < prev.len() {
                        assert(prev[idx] == r@[idx]);
                    } else {
                        assert(pair_for(
                            versions@[vi as int].token@,
                            reg,
                            ti as int,
                            tag@,
                            dt@,
                            (r@[idx].source@, r@[idx].dest@),
                        ));
                    }
                }
                assert forall|vi2: int, i: int, p: (Seq<u8>, Seq<u8>)|
                    {
                        &&& 0 <= vi2 < vi
                        &&& 0 <= i < reg.targets@.len()
                        &&& target_allows(reg, i, versions@[vi2].release@)
                        &&& #[trigger] pair_for(versions@[vi2].token@, reg, i, tag@, dt@, p)
                    } implies pair_listed(r@, p) by {
                    let idx = choose|idx: int|
                        0 <= idx < prev.len() && prev[idx].source@ == p.0 && prev[idx].dest@
                            == p.1;
                    assert(r@[idx].source@ == p.0 && r@[idx].dest@ == p.1);
                }
                assert forall|i: int, p: (Seq<u8>, Seq<u8>)|
                    {
                        &&& 0 <= i < ti + 1
                        &&& target_allows(reg, i, versions@[vi as int].release@)
                        &&& #[trigger] pair_for(versions@[vi as int].token@, reg, i, tag@, dt@, p)
                    } implies pair_listed(r@, p) by {
                    if i < ti {
                        let idx = choose|idx: int|
                            0 <= idx < prev.len() && prev[idx].source@ == p.0 && prev[idx].dest@
                                == p.1;
                        assert(r@[idx].source@ == p.0 && r@[idx].dest@ == p.1);
                    }
                }
            }
            ti = ti + 1;
        }
        vi = vi + 1;
    }
    r
}

/// Wanted-asset generation is pure: two lists that both satisfy the
/// generation contract for the same inputs list the same set of pairs.
pub proof fn lemma_wanted_assets_pure(
    versions: Seq<VersionEntry>,
    reg: &Registry,
    tag: Seq<u8>,
    dt: Seq<u8>,
    w1: Seq<WantedAsset>,
    w2: Seq<WantedAsset>,
)
    requires
        forall|idx: int|
            0 <= idx < w1.len() ==> wanted_pair(
                versions,
                reg,
                tag,
                dt,
                (w1[idx].source@, w1[idx].dest@),
            ),
        forall|p: (Seq<u8>, Seq<u8>)| #[trigger] wanted_pair(versions, reg, tag, dt, p)
            ==> pair_listed(w1, p),
        forall|idx: int|
            0 <= idx < w2.len() ==> wanted_pair(
                versions,
                reg,
                tag,
                dt,
                (w2[idx].source@, w2[idx].dest@),
            ),
        forall|p: (Seq<u8>, Seq<u8>)| #[trigger] wanted_pair(versions, reg, tag, dt, p)
            ==> pair_listed(w2, p),
    ensures
        forall|p: (Seq<u8>, Seq<u8>)| #[trigger] pair_listed(w1, p) <==> pair_listed(w2, p),
{
    assert forall|p: (Seq<u8>, Seq<u8>)| #[trigger] pair_listed(w1, p) implies pair_listed(
        w2,
        p,
    ) by {
        let idx = choose|idx: int|
            0 <= idx < w1.len() && w1[idx].source@ == p.0 && w1[idx].dest@ == p.1;
        assert(wanted_pair(versions, reg, tag, dt, p));
    }
    assert forall|p: (Seq<u8>, Seq<u8>)| #[trigger] pair_listed(w2, p) implies pair_listed(
        w1,
        p,
    ) by {
        let idx = choose|idx: int|
            0 <= idx < w2.len() && w2[idx].source@ == p.0 && w2[idx].dest@ == p.1;
        assert(wanted_pair(versions, reg, tag, dt, p));
    }
}

/// Keep the local filenames that belong to this run: those that start with
/// the project prefix and contain the build timestamp.
pub fn filter_local(filenames: &Vec<Vec<u8>>, dt: &Vec<u8>) -> (r: Vec<Vec<u8>>)
    ensures
        forall|i: int|
            0 <= i < r@.len() ==> {
                &&& name_present(filenames.deep_view(), r@[i]@)
                &&& starts_with(r@[i]@, spec_project() + spec_dash())
                &&& contains_seq(r@[i]@, dt@)
            },
        forall|j: int|
            0 <= j < filenames@.len() && starts_with(
                filenames@[j]@,
                spec_project() + spec_dash(),
            ) && contains_seq(filenames@[j]@, dt@) ==> name_present(r.deep_view(), filenames@[j]@),
{
    let prefix = concat_bytes(project(), &dash());
    let mut r: Vec<Vec<u8>> = Vec::new();
    let mut j: usize = 0;
    while j < filenames.len()
        invariant
            j <= filenames@.len(),
            prefix@ == spec_project() + spec_dash(),
            forall|i: int|
                0 <= i < r@.len() ==> {
                    &&& name_present(filenames.deep_view(), r@[i]@)
                    &&& starts_with(r@[i]@, spec_project() + spec_dash())
                    &&& contains_seq(r@[i]@, dt@)
                },
            forall|j2: int|
                0 <= j2 < j && starts_with(filenames@[j2]@, spec_project() + spec_dash())
                    && contains_seq(filenames@[j2]@, dt@) ==> name_present(
                    r.deep_view(),
                    filenames@[j2]@,
                ),
        decreases filenames.len() - j,
    {
        let f = &filenames[j];
        if has_prefix(f, &prefix) && contains_bytes(f, dt) {
            let ghost prev = r@;
            r.push(subvec(f, 0, f.len()));
            proof {
                assert(f@.subrange(0, f@.len() as int) =~= f@);
                lemma_deep_is_view(filenames@[j as int]);
                assert(filenames.deep_view()[j as int] == f@);
                assert forall|j2: int|
                    0 <= j2 < j + 1 && starts_with(filenames@[j2]@, spec_project() + spec_dash())
                        && contains_seq(filenames@[j2]@, dt@) implies name_present(
                    r.deep_view(),
                    filenames@[j2]@,
                ) by {
                    if j2 < j {
                        let k = choose|k: int|
                            0 <= k < prev.len() && prev[k].deep_view() == filenames@[j2]@;
                        assert(r.deep_view()[k] == filenames@[j2]@);
                    } else {
                        lemma_deep_is_view(r@[r@.len() - 1]);
                        assert(r.deep_view()[r@.len() - 1] == filenames@[j2]@);
                    }
                }
            }
        } else {
            proof {
                assert forall|j2: int|
                    0 <= j2 < j + 1 && starts_with(filenames@[j2]@, spec_project() + spec_dash())
                        && contains_seq(filenames@[j2]@, dt@) implies name_present(
                    r.deep_view(),
                    filenames@[j2]@,
                ) by {
                    if j2 == j {
                        lemma_deep_is_view(filenames@[j as int]);
                    }
                }
            }
        }
        j = j + 1;
    }
    r
}

/// The wanted sources that are not present locally, in wanted order.
pub fn compute_missing(wanted: &Vec<WantedAsset>, present: &Vec<Vec<u8>>) -> (r: Vec<Vec<u8>>)
    ensures
        forall|i: int|
            0 <= i < r@.len() ==> !name_present(present.deep_view(), r@[i]@) && exists|idx: int|
                0 <= idx < wanted@.len() && #[trigger] wanted@[idx].source@ == r@[i]@,
        forall|idx: int|
            0 <= idx < wanted@.len() && !name_present(
                present.deep_view(),
                #[trigger] wanted@[idx].source@,
            ) ==> name_present(r.deep_view(), wanted@[idx].source@),
{
    let mut r: Vec<Vec<u8>> = Vec::new();
    let mut idx: usize = 0;
    while idx < wanted.len()
        invariant
            idx <= wanted@.len(),
            forall|i: int|
                0 <= i < r@.len() ==> !name_present(present.deep_view(), r@[i]@) && exists|
                    idx2: int,
                |
                    0 <= idx2 < wanted@.len() && #[trigger] wanted@[idx2].source@ == r@[i]@,
            forall|idx2: int|
                0 <= idx2 < idx && !name_present(
                    present.deep_view(),
                    #[trigger] wanted@[idx2].source@,
                ) ==> name_present(r.deep_view(), wanted@[idx2].source@),
        decreases wanted.len() - idx,
    {
        let src = &wanted[idx].source;
        if !crate::retry::asset_already_present(present, src) {
            let ghost prev = r@;
            r.push(subvec(src, 0, src.len()));
            proof {
                assert(src@.subrange(0, src@.len() as int) =~= src@);
                lemma_deep_is_view(r@[r@.len() - 1]);
                assert(r.deep_view()[r@.len() - 1] == src@);
                assert(wanted@[idx as int].source@ == src@);
                assert forall|i: int|
                    0 <= i < r@.len() implies !name_present(present.deep_view(), r@[i]@)
                    && exists|idx2: int|
                    0 <= idx2 < wanted@.len() && #[trigger] wanted@[idx2].source@ == r@[i]@ by {
                    if i < prev.len() {
                        assert(r@[i] == prev[i]);
                    } else {
                        assert(r@[i]@ == src@);
                        assert(wanted@[idx as int].source@ == r@[i]@);
                    }
                }
                assert forall|idx2: int|
                    0 <= idx2 < idx + 1 && !name_present(
                        present.deep_view(),
                        #[trigger] wanted@[idx2].source@,
                    ) implies name_present(r.deep_view(), wanted@[idx2].source@) by {
                    if idx2 < idx {
                        let k = choose|k: int|
                            0 <= k < prev.len() && prev[k].deep_view() == wanted@[idx2].source@;
                        assert(r.deep_view()[k] == wanted@[idx2].source@);
                    }
                }
            }
        }
        idx = idx + 1;
    }
    proof {
        assert forall|i: int|
            0 <= i < r@.len() implies !name_present(present.deep_view(), r@[i]@) && exists|
            idx2: int,
        |
            0 <= idx2 < wanted@.len() && #[trigger] wanted@[idx2].source@ == r@[i]@ by {
        }
    }
    r
}

/// Some entry of `vs` carries the token `t`.
pub open spec fn token_listed(vs: Seq<VersionEntry>, t: Seq<u8>) -> bool {
    exists|i: int| 0 <= i < vs.len() && vs[i].token@ == t
}

/// `t` is the version token of some filename in `present`.
pub open spec fn token_of_some_file(present: Seq<Vec<u8>>, t: Seq<u8>) -> bool {
    exists|j: int| 0 <= j < present.len() && #[trigger] is_version_token(present[j]@, t)
}

/// Collect the distinct version tokens of the local filenames, each with its
/// parsed release components; `None` where some token is no version, which
/// aborts the run.
pub fn collect_version_entries(present: &Vec<Vec<u8>>) -> (r: Option<Vec<VersionEntry>>)
    requires
        forall|j: int|
            0 <= j < present@.len() ==> starts_with(
                #[trigger] present@[j]@,
                spec_project() + spec_dash(),
            ),
    ensures
        match r {
            Some(vs) => {
                &&& forall|i: int|
                    0 <= i < vs@.len() ==> pep440_release_of(#[trigger] vs@[i].token@) == Some(
                        vs@[i].release@,
                    ) && token_of_some_file(present@, vs@[i].token@)
                &&& forall|j: int, t: Seq<u8>|
                    0 <= j < present@.len() && #[trigger] is_version_token(present@[j]@, t)
                        ==> token_listed(vs@, t)
                &&& forall|i1: int, i2: int|
                    0 <= i1 < i2 < vs@.len() ==> #[trigger] vs@[i1].token@ != #[trigger] vs@[i2].token@
            },
            None => exists|j: int, t: Seq<u8>|
                0 <= j < present@.len() && #[trigger] is_version_token(present@[j]@, t)
                    && pep440_release_of(t) is None,
        },
{
    let mut vs: Vec<VersionEntry> = Vec::new();
    let mut j: usize = 0;
    while j < present.len()
        invariant
            j <= present@.len(),
            forall|j2: int|
                0 <= j2 < present@.len() ==> starts_with(
                    #[trigger] present@[j2]@,
                    spec_project() + spec_dash(),
                ),
            forall|i: int|
                0 <= i < vs@.len() ==> pep440_release_of(#[trigger] vs@[i].token@) == Some(
                    vs@[i].release@,
                ) && token_of_some_file(present@, vs@[i].token@),
            forall|j2: int, t: Seq<u8>|
                0 <= j2 < j && #[trigger] is_version_token(present@[j2]@, t) ==> token_listed(
                    vs@,
                    t,
                ),
            forall|i1: int, i2: int|
                0 <= i1 < i2 < vs@.len() ==> #[trigger] vs@[i1].token@ != #[trigger] vs@[i2].token@,
        decreases present.len() - j,
    {
        let f = &present[j];
        proof {
            let pfx = spec_project() + spec_dash();
            assert(starts_with(f@, pfx));
            assert(f@.subrange(0, pfx.len() as int) == pfx);
            assert(f@.subrange(0, 8)[7] == pfx[7]);
            assert(f@[7] == 45);
        }
        let e1 = next_dash(f, 0);
        proof {
            if e1 == f@.len() {
                assert(f@[7] != 45);
            }
        }
        let e2 = next_dash(f, e1 + 1);
        let token = subvec(f, e1 + 1, e2);
        proof {
            assert(is_version_token(f@, token@));
        }
        let mut seen = false;
        let mut i: usize = 0;
        while i < vs.len()
            invariant
                i <= vs@.len(),
                seen ==> token_listed(vs@, token@),
                !seen ==> forall|i2: int| 0 <= i2 < i ==> #[trigger] vs@[i2].token@ != token@,
            decreases vs.len() - i,
        {
            if eq_bytes(&vs[i].token, &token) {
                seen = true;
                proof {
                    assert(vs@[i as int].token@ == token@);
                }
            }
            i = i + 1;
        }
        if !seen {
            match crate::version::parse_version_token(&token) {
                Some(rel) => {
                    let ghost tokenv = token@;
                    let ghost prev = vs@;
                    vs.push(VersionEntry { token, release: rel });
                    proof {
                        assert(vs@[vs@.len() - 1].token@ == tokenv);
                        assert(token_listed(vs@, tokenv));
                        assert(token_of_some_file(present@, tokenv));
                        assert forall|t: Seq<u8>|
                            #[trigger] token_listed(prev, t) implies token_listed(vs@, t) by {
                            let i2 = choose|i2: int|
                                0 <= i2 < prev.len() && prev[i2].token@ == t;
                            assert(vs@[i2].token@ == t);
                        }
                        assert forall|j2: int, t: Seq<u8>|
                            0 <= j2 < j + 1 && #[trigger] is_version_token(
                                present@[j2]@,
                                t,
                            ) implies token_listed(vs@, t) by {
                            if j2 == j {
                                crate::classify::lemma_version_token_unique(
                                    present@[j2]@,
                                    t,
                                    e1 as int,
                                    e2 as int,
                                );
                                assert(t == tokenv);
                            } else {
                                assert(token_listed(prev, t));
                            }
                        }
                    }
                },
                None => {
                    return None;
                },
            }
        } else {
            proof {
                assert forall|j2: int, t: Seq<u8>|
                    0 <= j2 < j + 1 && #[trigger] is_version_token(
                        present@[j2]@,
                        t,
                    ) implies token_listed(vs@, t) by {
                    if j2 == j {
                        crate::classify::lemma_version_token_unique(
                            present@[j2]@,
                            t,
                            e1 as int,
                            e2 as int,
                        );
                        assert(t == token@);
                    }
                }
            }
        }
        j = j + 1;
    }
    Some(vs)
}

/// Prepare the upload endpoint path: strip the templated placeholder from
/// its end, where it stands.
pub fn strip_placeholder_suffix(path: &Vec<u8>) -> (r: Vec<u8>)
    ensures
        ends_with(path@, spec_placeholder()) ==> r@ == path@.subrange(
            0,
            path@.len() - spec_placeholder().len(),
        ),
        !ends_with(path@, spec_placeholder()) ==> r@ == path@,
{
    let ph = placeholder();
    if has_suffix(path, &ph) {
        subvec(path, 0, path.len() - ph.len())
    } else {
        let c = subvec(path, 0, path.len());
        proof {
            assert(path@.subrange(0, path@.len() as int) =~= path@);
        }
        c
    }
}

} // verus!
