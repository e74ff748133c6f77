//! The target registry: the table of release targets, triple resolution with
//! the longest-match rule, and the accepted build suffixes of a target under
//! its optional version constraint.

use vstd::prelude::*;
use crate::byteseq::{contains_bytes, contains_seq, eq_bytes, subvec};
use crate::version::{release_at_least, release_ge};

verus! {

/// One release target: a platform triple, the build suffixes accepted for
/// it, the suffix that marks the install-only candidate, and an optional
/// minimum version that artifacts of this target must satisfy.
pub struct ReleaseTarget {
    pub triple: Vec<u8>,
    pub accepted_suffixes: Vec<Vec<u8>>,
    pub install_only_suffix: Vec<u8>,
    pub version_min: Option<Vec<u64>>,
}

/// The static table of release targets.
pub struct Registry {
    pub targets: Vec<ReleaseTarget>,
}

/// The triple of target `i`.
pub open spec fn triple_of(reg: &Registry, i: int) -> Seq<u8> {
    reg.targets@[i].triple@
}

/// Index `i` is the resolution of `name`: its triple occurs in `name`, no
/// matching triple is longer, and among the longest matches it is the first.
pub open spec fn resolved_to(reg: &Registry, name: Seq<u8>, i: int) -> bool {
    &&& 0 <= i < reg.targets@.len()
    &&& contains_seq(name, triple_of(reg, i))
    &&& forall|j: int|
        0 <= j < reg.targets@.len() && contains_seq(name, triple_of(reg, j)) ==> triple_of(
            reg,
            j,
        ).len() <= triple_of(reg, i).len()
    &&& forall|j: int|
        0 <= j < i && contains_seq(name, triple_of(reg, j)) ==> triple_of(reg, j).len()
            < triple_of(reg, i).len()
}

/// Resolve `name` against the registry: the first of the longest matching
/// triples, or `None` where no registered triple occurs in `name`.
pub fn resolve_triple(reg: &Registry, name: &Vec<u8>) -> (r: Option<usize>)
    ensures
        match r {
            Some(i) => resolved_to(reg, name@, i as int),
            None => forall|j: int|
                0 <= j < reg.targets@.len() ==> !contains_seq(name@, triple_of(reg, j)),
        },
{
    let mut best: Option<usize> = None;
    let mut k: usize = 0;
    while k < reg.targets.len()
        invariant
            k <= reg.targets@.len(),
            match best {
                Some(i) => {
                    &&& 0 <= (i as int) < k
                    &&& contains_seq(name@, triple_of(reg, i as int))
                    &&& forall|j: int|
                        0 <= j < k && contains_seq(name@, triple_of(reg, j)) ==> triple_of(
                            reg,
                            j,
                        ).len() <= triple_of(reg, i as int).len()
                    &&& forall|j: int|
                        0 <= j < i && contains_seq(name@, triple_of(reg, j)) ==> triple_of(
                            reg,
                            j,
                        ).len() < triple_of(reg, i as int).len()
                },
                None => forall|j: int| 0 <= j < k ==> !contains_seq(name@, triple_of(reg, j)),
            },
        decreases reg.targets.len() - k,
    {
        let t = &reg.targets[k].triple;
        if contains_bytes(name, t) {
            match best {
                Some(i) => {
                    if reg.targets[i].triple.len() < t.len() {
                        best = Some(k);
                    }
                },
                None => {
                    best = Some(k);
                },
            }
        }
        k = k + 1;
    }
    best
}

/// The longest-triple invariant: where one registered triple is strictly
/// shorter than another and the name contains the longer one, resolution
/// never yields the shorter triple.
pub proof fn lemma_longest_triple_wins(reg: &Registry, name: Seq<u8>, i: int, a: int, b: int)
    requires
        resolved_to(reg, name, i),
        0 <= a < reg.targets@.len(),
        0 <= b < reg.targets@.len(),
        triple_of(reg, a).len() < triple_of(reg, b).len(),
        contains_seq(name, triple_of(reg, b)),
    ensures
        triple_of(reg, i) != triple_of(reg, a),
        triple_of(reg, i).len() >= triple_of(reg, b).len(),
{
    assert(triple_of(reg, b).len() <= triple_of(reg, i).len());
}

/// Resolution is unique: only one index satisfies `resolved_to`.
pub proof fn lemma_resolved_unique(reg: &Registry, name: Seq<u8>, i1: int, i2: int)
    requires
        resolved_to(reg, name, i1),
        resolved_to(reg, name, i2),
    ensures
        i1 == i2,
{
    if i1 < i2 {
        assert(triple_of(reg, i1).len() < triple_of(reg, i2).len());
        assert(triple_of(reg, i2).len() <= triple_of(reg, i1).len());
    }
    if i2 < i1 {
        assert(triple_of(reg, i2).len() < triple_of(reg, i1).len());
        assert(triple_of(reg, i1).len() <= triple_of(reg, i2).len());
    }
}

/// The suffixes wanted of a target for a version: all accepted suffixes, or
/// none where the version falls below the target's minimum.
pub open spec fn spec_wanted_suffixes(t: &ReleaseTarget, version: Option<Seq<u64>>) -> Seq<
    Seq<u8>,
> {
    if target_version_excluded(t, version) {
        Seq::empty()
    } else {
        t.accepted_suffixes@.map_values(|s: Vec<u8>| s@)
    }
}

/// The target's version constraint exists and rejects the version.
pub open spec fn target_version_excluded(t: &ReleaseTarget, version: Option<Seq<u64>>) -> bool {
    match (t.version_min, version) {
        (Some(m), Some(v)) => !release_ge(v, m@),
        _ => false,
    }
}

/// The suffixes wanted of a target for a version.
pub fn wanted_suffixes(t: &ReleaseTarget, version: Option<&Vec<u64>>) -> (r: Vec<Vec<u8>>)
    ensures
        r.deep_view() == spec_wanted_suffixes(t, match version {
            Some(v) => Some(v@),
            None => None,
        }),
{
    let excluded = match (&t.version_min, version) {
        (Some(m), Some(v)) => !release_at_least(v, m),
        _ => false,
    };
    if excluded {
        let r: Vec<Vec<u8>> = Vec::new();
        proof {
            assert(r.deep_view() =~= Seq::<Seq<u8>>::empty());
        }
        return r;
    }
    let mut r: Vec<Vec<u8>> = Vec::new();
    let mut i: usize = 0;
    while i < t.accepted_suffixes.len()
        invariant
            i <= t.accepted_suffixes@.len(),
            r@.len() == i,
            forall|j: int| 0 <= j < i ==> r@[j]@ == t.accepted_suffixes@[j]@,
        decreases t.accepted_suffixes.len() - i,
    {
        let s = &t.accepted_suffixes[i];
        r.push(subvec(s, 0, s.len()));
        proof {
            assert(s@.subrange(0, s@.len() as int) =~= s@);
        }
        i = i + 1;
    }
    proof {
        let m = t.accepted_suffixes@.map_values(|s: Vec<u8>| s@);
        assert forall|j: int| 0 <= j < r@.len() implies r.deep_view()[j] == m[j] by {
            lemma_deep_is_view(r@[j]);
        }
        assert(r.deep_view() =~= m);
    }
    r
}

/// The deep view of a byte vector is its view.
pub proof fn lemma_deep_is_view(v: Vec<u8>)
    ensures
        v.deep_view() == v@,
{
    assert(v.deep_view() =~= v@);
}

/// Whether some accepted suffix of `t` equals `s`.
pub open spec fn suffix_accepted(t: &ReleaseTarget, s: Seq<u8>) -> bool {
    exists|k: int| 0 <= k < t.accepted_suffixes@.len() && t.accepted_suffixes@[k]@ == s
}

/// Whether `s` is one of the accepted suffixes of `t`.
pub fn is_accepted_suffix(t: &ReleaseTarget, s: &Vec<u8>) -> (r: bool)
    ensures
        r == suffix_accepted(t, s@),
{
    let mut k: usize = 0;
    while k < t.accepted_suffixes.len()
        invariant
            k <= t.accepted_suffixes@.len(),
            forall|j: int| 0 <= j < k ==> t.accepted_suffixes@[j]@ != s@,
        decreases t.accepted_suffixes.len() - k,
    {
        if eq_bytes(&t.accepted_suffixes[k], s) {
            return true;
        }
        k = k + 1;
    }
    false
}

} // verus!
