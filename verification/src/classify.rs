//! The artifact classifier: parse a CI artifact filename into a structured
//! descriptor and decide, against the target registry, whether the artifact
//! belongs in the release.

use vstd::prelude::*;
use crate::byteseq::{
    contains_seq, ends_with, eq_bytes, find_first, has_suffix, is_first_occurrence,
    lemma_first_occurrence_unique, subvec,
};
use crate::lit::{ext_tar_zst, project, spec_ext_tar_zst, spec_project};
use crate::registry::{
    lemma_resolved_unique, resolved_to, resolve_triple, is_accepted_suffix, Registry, triple_of,
};
use crate::version::{parse_version_token, pep440_release_of, release_at_least, release_ge};

verus! {

/// Why a filename was excluded from the release; never fatal.
#[derive(Clone, Copy, PartialEq, Eq, Structural, Debug)]
pub enum RejectReason {
    /// The leading token is not the expected project name.
    NotThisProject,
    /// The version lies below the acceptance window.
    VersionTooOld,
    /// No registered triple occurs in the filename.
    NoTripleMatch,
    /// The filename does not end in the expected archive extension.
    WrongExtension,
    /// No room for the fixed-width timestamp token.
    TimestampMissing,
    /// The token between triple and timestamp is not an accepted suffix.
    SuffixNotAccepted,
}

/// A fatal classification failure.
#[derive(Clone, Copy, PartialEq, Eq, Structural, Debug)]
pub enum ClassifyError {
    /// The version token cannot be parsed; aborts the run.
    VersionUnparsable,
    /// The resolved triple vanished after stripping the timestamp: a defect
    /// signal, since matching succeeded on the unstripped name.
    TripleLost,
}

/// The structured description of an accepted artifact filename.
#[derive(Debug)]
pub struct ArtifactDescriptor {
    /// The version token as it stands in the filename.
    pub version_token: Vec<u8>,
    /// The numeric release components parsed from the version token.
    pub release: Vec<u64>,
    /// The index of the resolved target in the registry.
    pub target_index: usize,
    /// The resolved triple.
    pub triple: Vec<u8>,
    /// The build suffix between the triple and the timestamp.
    pub build_suffix: Vec<u8>,
    /// The fixed-width timestamp token.
    pub timestamp: Vec<u8>,
    /// Whether the suffix is the target's install-only suffix.
    pub install_only_candidate: bool,
}

/// The decision for one filename.
#[derive(Debug)]
pub enum Classification {
    Accepted(ArtifactDescriptor),
    Rejected(RejectReason),
}

/// `e` is the end of the token that starts at `from`: the next separator, or
/// the end of the string.
pub open spec fn is_token_end(s: Seq<u8>, from: int, e: int) -> bool {
    &&& from <= e <= s.len()
    &&& (e == s.len() || s[e] == 45)
    &&& forall|j: int| from <= j < e ==> s[j] != 45
}

/// Token ends are unique.
pub proof fn lemma_token_end_unique(s: Seq<u8>, from: int, e1: int, e2: int)
    requires
        is_token_end(s, from, e1),
        is_token_end(s, from, e2),
    ensures
        e1 == e2,
{
    if e1 < e2 {
        assert(s[e1] != 45);
    }
    if e2 < e1 {
        assert(s[e2] != 45);
    }
}

/// The leading token of `name` is the project name.
pub open spec fn project_matches(name: Seq<u8>) -> bool {
    exists|e: int| is_token_end(name, 0, e) && name.subrange(0, e) == spec_project()
}

/// A second token exists.
pub open spec fn has_version_token(name: Seq<u8>) -> bool {
    exists|e: int| is_token_end(name, 0, e) && e < name.len()
}

/// `t` is the second token of `name`.
pub open spec fn is_version_token(name: Seq<u8>, t: Seq<u8>) -> bool {
    exists|e1: int, e2: int|
        {
            &&& #[trigger] is_token_end(name, 0, e1)
            &&& e1 < name.len()
            &&& #[trigger] is_token_end(name, e1 + 1, e2)
            &&& t == name.subrange(e1 + 1, e2)
        }
}

/// The second token of `name` is unique.
pub proof fn lemma_version_token_unique(name: Seq<u8>, t: Seq<u8>, e1: int, e2: int)
    requires
        is_version_token(name, t),
        is_token_end(name, 0, e1),
        e1 < name.len(),
        is_token_end(name, e1 + 1, e2),
    ensures
        t == name.subrange(e1 + 1, e2),
{
    let (f1, f2) = choose|f1: int, f2: int|
        {
            &&& #[trigger] is_token_end(name, 0, f1)
            &&& f1 < name.len()
            &&& #[trigger] is_token_end(name, f1 + 1, f2)
            &&& t == name.subrange(f1 + 1, f2)
        };
    lemma_token_end_unique(name, 0, f1, e1);
    lemma_token_end_unique(name, e1 + 1, f2, e2);
}

/// The second token of `name` parses as a version.
pub open spec fn version_parses(name: Seq<u8>) -> bool {
    exists|t: Seq<u8>| is_version_token(name, t) && pep440_release_of(t) is Some
}

/// The parsed version of `name` lies within the acceptance window.
pub open spec fn in_window(name: Seq<u8>, window: Seq<u64>) -> bool {
    exists|t: Seq<u8>, rel: Seq<u64>|
        {
            &&& is_version_token(name, t)
            &&& pep440_release_of(t) == Some(rel)
            &&& release_ge(rel, window)
        }
}

/// Some registered triple occurs in `name`.
pub open spec fn any_triple(reg: &Registry, name: Seq<u8>) -> bool {
    exists|j: int| 0 <= j < reg.targets@.len() && contains_seq(name, triple_of(reg, j))
}

/// `name` ends in the full-archive extension.
pub open spec fn ext_ok(name: Seq<u8>) -> bool {
    ends_with(name, spec_ext_tar_zst())
}

/// `name` has room for extension and fixed-width timestamp.
pub open spec fn ts_ok(name: Seq<u8>) -> bool {
    name.len() >= 22
}

/// `name` with extension and timestamp stripped.
pub open spec fn base_of(name: Seq<u8>) -> Seq<u8> {
    name.subrange(0, name.len() - 22)
}

/// The leading tokens of `name` name the project and a parsable version.
pub open spec fn versioned(name: Seq<u8>) -> bool {
    project_matches(name) && has_version_token(name) && version_parses(name)
}

/// `sfx` is what follows the first occurrence of `triple` in `base`, less
/// one separator byte.
pub open spec fn is_build_suffix(base: Seq<u8>, triple: Seq<u8>, sfx: Seq<u8>) -> bool {
    exists|at: int|
        {
            &&& is_first_occurrence(base, triple, at)
            &&& at + triple.len() + 1 <= base.len()
            &&& sfx == base.subrange(at + triple.len() + 1, base.len() as int)
        }
}

/// A build suffix can be taken after the first occurrence of `triple`.
pub open spec fn suffix_fits(base: Seq<u8>, triple: Seq<u8>) -> bool {
    exists|at: int| is_first_occurrence(base, triple, at) && at + triple.len() + 1 <= base.len()
}

/// Some accepted suffix of target `i` equals `s`.
pub open spec fn suffix_accepted_at(reg: &Registry, i: int, s: Seq<u8>) -> bool {
    exists|k: int|
        0 <= k < reg.targets@[i].accepted_suffixes@.len() && reg.targets@[i].accepted_suffixes@[k]@
            == s
}

/// The install-only suffix of target `i`.
pub open spec fn install_only_at(reg: &Registry, i: int) -> Seq<u8> {
    reg.targets@[i].install_only_suffix@
}

/// Exactly when classification rejects `name` with `why`.
pub open spec fn classify_rejects(
    reg: &Registry,
    name: Seq<u8>,
    window: Seq<u64>,
    why: RejectReason,
) -> bool {
    match why {
        RejectReason::NotThisProject => !project_matches(name),
        RejectReason::VersionTooOld => versioned(name) && !in_window(name, window),
        RejectReason::NoTripleMatch => versioned(name) && in_window(name, window) && !any_triple(
            reg,
            name,
        ),
        RejectReason::WrongExtension => versioned(name) && in_window(name, window) && any_triple(
            reg,
            name,
        ) && !ext_ok(name),
        RejectReason::TimestampMissing => versioned(name) && in_window(name, window) && any_triple(
            reg,
            name,
        ) && ext_ok(name) && !ts_ok(name),
        RejectReason::SuffixNotAccepted => versioned(name) && in_window(name, window) && any_triple(
            reg,
            name,
        ) && ext_ok(name) && ts_ok(name) && exists|i: int|
            {
                &&& resolved_to(reg, name, i)
                &&& contains_seq(base_of(name), triple_of(reg, i))
                &&& (!suffix_fits(base_of(name), triple_of(reg, i)) || exists|sfx: Seq<u8>|
                    is_build_suffix(base_of(name), triple_of(reg, i), sfx) && !suffix_accepted_at(
                        reg,
                        i,
                        sfx,
                    ))
            },
    }
}

/// Exactly when classification fails fatally with `e`.
pub open spec fn classify_fails(
    reg: &Registry,
    name: Seq<u8>,
    window: Seq<u64>,
    e: ClassifyError,
) -> bool {
    match e {
        ClassifyError::VersionUnparsable => project_matches(name) && (!has_version_token(name)
            || !version_parses(name)),
        ClassifyError::TripleLost => versioned(name) && in_window(name, window) && any_triple(
            reg,
            name,
        ) && ext_ok(name) && ts_ok(name) && exists|i: int|
            resolved_to(reg, name, i) && !contains_seq(base_of(name), triple_of(reg, i)),
    }
}

/// Exactly when classification accepts `name` with descriptor `d`.
pub open spec fn classify_accepts(
    reg: &Registry,
    name: Seq<u8>,
    window: Seq<u64>,
    d: &ArtifactDescriptor,
) -> bool {
    &&& project_matches(name)
    &&& is_version_token(name, d.version_token@)
    &&& pep440_release_of(d.version_token@) == Some(d.release@)
    &&& release_ge(d.release@, window)
    &&& resolved_to(reg, name, d.target_index as int)
    &&& d.triple@ == triple_of(reg, d.target_index as int)
    &&& ext_ok(name)
    &&& ts_ok(name)
    &&& d.timestamp@ == name.subrange(name.len() - 21, name.len() - 8)
    &&& is_build_suffix(base_of(name), d.triple@, d.build_suffix@)
    &&& suffix_accepted_at(reg, d.target_index as int, d.build_suffix@)
    &&& d.install_only_candidate == (d.build_suffix@ == install_only_at(
        reg,
        d.target_index as int,
    ))
}

/// The bare outcome of classification, without the descriptor's data.
#[derive(Clone, Copy, PartialEq, Eq, Structural, Debug)]
pub enum Decision {
    Accept,
    Reject(RejectReason),
    Fail(ClassifyError),
}

/// The decision that classification owes a filename, as a function of the
/// inputs alone.
pub open spec fn spec_decision(reg: &Registry, name: Seq<u8>, window: Seq<u64>) -> Decision {
    if !project_matches(name) {
        Decision::Reject(RejectReason::NotThisProject)
    } else if !has_version_token(name) || !version_parses(name) {
        Decision::Fail(ClassifyError::VersionUnparsable)
    } else if !in_window(name, window) {
        Decision::Reject(RejectReason::VersionTooOld)
    } else if !any_triple(reg, name) {
        Decision::Reject(RejectReason::NoTripleMatch)
    } else if !ext_ok(name) {
        Decision::Reject(RejectReason::WrongExtension)
    } else if !ts_ok(name) {
        Decision::Reject(RejectReason::TimestampMissing)
    } else if exists|i: int|
        #[trigger] resolved_to(reg, name, i) && !contains_seq(base_of(name), triple_of(reg, i)) {
        Decision::Fail(ClassifyError::TripleLost)
    } else if exists|i: int|
        #[trigger] resolved_to(reg, name, i) && (!suffix_fits(base_of(name), triple_of(reg, i))
            || exists|sfx: Seq<u8>|
            #[trigger] is_build_suffix(base_of(name), triple_of(reg, i), sfx)
                && !suffix_accepted_at(reg, i, sfx)) {
        Decision::Reject(RejectReason::SuffixNotAccepted)
    } else {
        Decision::Accept
    }
}

/// The decision that a classification result reports.
pub open spec fn result_decision(r: Result<Classification, ClassifyError>) -> Decision {
    match r {
        Ok(c) => match c {
            Classification::Accepted(_) => Decision::Accept,
            Classification::Rejected(why) => Decision::Reject(why),
        },
        Err(e) => Decision::Fail(e),
    }
}

/// The full postcondition of classification: the outcome's condition holds,
/// and the outcome is the input-determined decision.
pub open spec fn classify_post(
    reg: &Registry,
    name: Seq<u8>,
    window: Seq<u64>,
    r: Result<Classification, ClassifyError>,
) -> bool {
    &&& match r {
        Ok(c) => match c {
            Classification::Accepted(d) => classify_accepts(reg, name, window, &d),
            Classification::Rejected(why) => classify_rejects(reg, name, window, why),
        },
        Err(e) => classify_fails(reg, name, window, e),
    }
    &&& result_decision(r) == spec_decision(reg, name, window)
}

/// The second token of a name is one value.
pub proof fn lemma_version_tokens_equal(name: Seq<u8>, t1: Seq<u8>, t2: Seq<u8>)
    requires
        is_version_token(name, t1),
        is_version_token(name, t2),
    ensures
        t1 == t2,
{
    let (f1, f2) = choose|f1: int, f2: int|
        {
            &&& #[trigger] is_token_end(name, 0, f1)
            &&& f1 < name.len()
            &&& #[trigger] is_token_end(name, f1 + 1, f2)
            &&& t1 == name.subrange(f1 + 1, f2)
        };
    lemma_version_token_unique(name, t2, f1, f2);
}

/// The build suffix taken after a triple is one value.
pub proof fn lemma_build_suffix_unique(base: Seq<u8>, triple: Seq<u8>, s1: Seq<u8>, s2: Seq<u8>)
    requires
        is_build_suffix(base, triple, s1),
        is_build_suffix(base, triple, s2),
    ensures
        s1 == s2,
{
    let a1 = choose|at: int|
        {
            &&& #[trigger] is_first_occurrence(base, triple, at)
            &&& at + triple.len() + 1 <= base.len()
            &&& s1 == base.subrange(at + triple.len() + 1, base.len() as int)
        };
    let a2 = choose|at: int|
        {
            &&& #[trigger] is_first_occurrence(base, triple, at)
            &&& at + triple.len() + 1 <= base.len()
            &&& s2 == base.subrange(at + triple.len() + 1, base.len() as int)
        };
    lemma_first_occurrence_unique(base, triple, a1, a2);
}

/// Classification determinism: two results that both satisfy the
/// classification contract for the same inputs report the same decision,
/// and accepted descriptors agree in every field.
pub proof fn lemma_classify_deterministic(
    reg: &Registry,
    name: Seq<u8>,
    window: Seq<u64>,
    r1: Result<Classification, ClassifyError>,
    r2: Result<Classification, ClassifyError>,
)
    requires
        classify_post(reg, name, window, r1),
        classify_post(reg, name, window, r2),
    ensures
        result_decision(r1) == result_decision(r2),
        match (r1, r2) {
            (
                Ok(Classification::Accepted(d1)),
                Ok(Classification::Accepted(d2)),
            ) => descriptors_agree(&d1, &d2),
            _ => true,
        },
{
    match (r1, r2) {
        (Ok(Classification::Accepted(d1)), Ok(Classification::Accepted(d2))) => {
            lemma_version_tokens_equal(name, d1.version_token@, d2.version_token@);
            lemma_resolved_unique(reg, name, d1.target_index as int, d2.target_index as int);
            lemma_build_suffix_unique(
                base_of(name),
                d1.triple@,
                d1.build_suffix@,
                d2.build_suffix@,
            );
        },
        _ => {},
    }
}

/// The fields of two descriptors carry the same values.
pub open spec fn descriptors_agree(d1: &ArtifactDescriptor, d2: &ArtifactDescriptor) -> bool {
    &&& d1.version_token@ == d2.version_token@
    &&& d1.release@ == d2.release@
    &&& d1.target_index == d2.target_index
    &&& d1.triple@ == d2.triple@
    &&& d1.build_suffix@ == d2.build_suffix@
    &&& d1.timestamp@ == d2.timestamp@
    &&& d1.install_only_candidate == d2.install_only_candidate
}

/// The end of the token of `v` that starts at `from`.
pub fn next_dash(v: &Vec<u8>, from: usize) -> (r: usize)
    requires
        from <= v@.len(),
    ensures
        is_token_end(v@, from as int, r as int),
        r <= v@.len(),
{
    let n = v.len();
    let mut i = from;
    while i < n
        invariant
            from <= i <= n,
            n == v@.len(),
            forall|j: int| from <= j < i ==> v@[j] != 45,
        decreases n - i,
    {
        if v[i] == 45 {
            return i;
        }
        i = i + 1;
    }
    i
}

/// Classify one artifact filename against the registry and the acceptance
/// window, deciding whether it belongs in the release.
pub fn classify(reg: &Registry, name: &Vec<u8>, window: &Vec<u64>) -> (r: Result<
    Classification,
    ClassifyError,
>)
    ensures
        classify_post(reg, name@, window@, r),
{
    let e1 = next_dash(name, 0);
    let project_token = subvec(name, 0, e1);
    if !eq_bytes(&project_token, &project()) {
        proof {
            assert forall|e: int|
                is_token_end(name@, 0, e) implies name@.subrange(0, e) != spec_project() by {
                lemma_token_end_unique(name@, 0, e, e1 as int);
            }
        }
        return Ok(Classification::Rejected(RejectReason::NotThisProject));
    }
    if e1 == name.len() {
        proof {
            assert forall|e: int| is_token_end(name@, 0, e) implies !(e < name@.len()) by {
                lemma_token_end_unique(name@, 0, e, e1 as int);
            }
        }
        return Err(ClassifyError::VersionUnparsable);
    }
    let e2 = next_dash(name, e1 + 1);
    let version_token = subvec(name, e1 + 1, e2);
    let parsed = parse_version_token(&version_token);
    let release: Vec<u64> = match parsed {
        Some(rel) => rel,
        None => {
            proof {
                assert forall|t: Seq<u8>|
                    is_version_token(name@, t) implies pep440_release_of(t) is None by {
                    lemma_version_token_unique(name@, t, e1 as int, e2 as int);
                }
            }
            return Err(ClassifyError::VersionUnparsable);
        },
    };
    proof {
        assert(is_token_end(name@, 0, e1 as int) && name@.subrange(0, e1 as int)
            == spec_project());
        assert(project_matches(name@));
        assert(has_version_token(name@));
        assert(is_version_token(name@, version_token@));
        assert(version_parses(name@));
        assert(versioned(name@));
    }
    if !release_at_least(&release, window) {
        proof {
            assert forall|t: Seq<u8>, rel: Seq<u64>|
                is_version_token(name@, t) && pep440_release_of(t) == Some(
                    rel,
                ) implies !release_ge(rel, window@) by {
                lemma_version_token_unique(name@, t, e1 as int, e2 as int);
            }
        }
        return Ok(Classification::Rejected(RejectReason::VersionTooOld));
    }
    proof {
        assert(in_window(name@, window@));
    }
    let target_index = match resolve_triple(reg, name) {
        Some(i) => i,
        None => {
            return Ok(Classification::Rejected(RejectReason::NoTripleMatch));
        },
    };
    proof {
        assert(any_triple(reg, name@));
    }
    if !has_suffix(name, &ext_tar_zst()) {
        return Ok(Classification::Rejected(RejectReason::WrongExtension));
    }
    if name.len() < 22 {
        return Ok(Classification::Rejected(RejectReason::TimestampMissing));
    }
    let base = subvec(name, 0, name.len() - 22);
    proof {
        assert(base@ == base_of(name@));
    }
    let triple = &reg.targets[target_index].triple;
    let pos = match find_first(&base, triple) {
        Some(p) => p,
        None => {
            proof {
                assert(resolved_to(reg, name@, target_index as int) && !contains_seq(
                    base_of(name@),
                    triple_of(reg, target_index as int),
                ));
            }
            return Err(ClassifyError::TripleLost);
        },
    };
    assert(pos + triple@.len() <= base@.len());
    proof {
        assert(contains_seq(base@, triple_of(reg, target_index as int)));
    }
    proof {
        assert forall|i: int| #[trigger] resolved_to(reg, name@, i) implies contains_seq(
            base_of(name@),
            triple_of(reg, i),
        ) by {
            lemma_resolved_unique(reg, name@, i, target_index as int);
        }
    }
    let suffix_start = pos + triple.len();
    if suffix_start == base.len() {
        proof {
            assert forall|at: int|
                is_first_occurrence(base@, triple@, at) implies !(at + triple@.len() + 1
                <= base@.len()) by {
                lemma_first_occurrence_unique(base@, triple@, at, pos as int);
            }
            assert(!suffix_fits(base_of(name@), triple_of(reg, target_index as int)));
            assert(resolved_to(reg, name@, target_index as int) && !suffix_fits(
                base_of(name@),
                triple_of(reg, target_index as int),
            ));
        }
        return Ok(Classification::Rejected(RejectReason::SuffixNotAccepted));
    }
    let build_suffix = subvec(&base, suffix_start + 1, base.len());
    proof {
        assert(is_build_suffix(base_of(name@), triple_of(reg, target_index as int),
            build_suffix@));
    }
    if !is_accepted_suffix(&reg.targets[target_index], &build_suffix) {
        proof {
            assert(!suffix_accepted_at(reg, target_index as int, build_suffix@));
            assert(is_build_suffix(
                base_of(name@),
                triple_of(reg, target_index as int),
                build_suffix@,
            ) && !suffix_accepted_at(reg, target_index as int, build_suffix@));
            assert(resolved_to(reg, name@, target_index as int));
        }
        return Ok(Classification::Rejected(RejectReason::SuffixNotAccepted));
    }
    proof {
        assert(suffix_accepted_at(reg, target_index as int, build_suffix@));
        assert(suffix_fits(base_of(name@), triple_of(reg, target_index as int)));
        assert forall|i: int| #[trigger] resolved_to(reg, name@, i) implies !(!suffix_fits(
            base_of(name@),
            triple_of(reg, i),
        ) || exists|sfx: Seq<u8>|
            #[trigger] is_build_suffix(base_of(name@), triple_of(reg, i), sfx)
                && !suffix_accepted_at(reg, i, sfx)) by {
            lemma_resolved_unique(reg, name@, i, target_index as int);
            assert forall|sfx: Seq<u8>|
                #[trigger] is_build_suffix(
                    base_of(name@),
                    triple_of(reg, i),
                    sfx,
                ) implies suffix_accepted_at(reg, i, sfx) by {
                lemma_build_suffix_unique(
                    base_of(name@),
                    triple_of(reg, i),
                    sfx,
                    build_suffix@,
                );
            }
        }
    }
    let triple_copy = subvec(triple, 0, triple.len());
    proof {
        assert(triple_copy@ =~= triple@);
    }
    let timestamp = subvec(name, name.len() - 21, name.len() - 8);
    let install_only_candidate = eq_bytes(&build_suffix, &reg.targets[target_index]
        .install_only_suffix);
    let d = ArtifactDescriptor {
        version_token,
        release,
        target_index,
        triple: triple_copy,
        build_suffix,
        timestamp,
        install_only_candidate,
    };
    Ok(Classification::Accepted(d))
}

} // verus!
