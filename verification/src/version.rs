//! Version handling: a trusted parse of a version token into its release
//! components, and a verified comparison of release components against a
//! minimum (the acceptance window and per-target version constraints).

use vstd::prelude::*;

verus! {

/// The release components that parsing a version token yields, or `None`
/// where the token is not a well-formed version.
pub uninterp spec fn pep440_release_of(s: Seq<u8>) -> Option<Seq<u64>>;

/// Relies on `pep440_rs::Version::from_str`: the parse depends on the token's
/// text alone; `Version::release` hands back the numeric release components.
#[verifier::external_body]
pub(crate) fn parse_version_token(token: &Vec<u8>) -> (r: Option<Vec<u64>>)
    ensures
        match r {
            Some(rel) => pep440_release_of(token@) == Some(rel@),
            None => pep440_release_of(token@) is None,
        },
{
    match core::str::from_utf8(token.as_slice()) {
        Ok(s) => match <pep440_rs::Version as core::str::FromStr>::from_str(s) {
            Ok(v) => Some(v.release().to_vec()),
            Err(_) => None,
        },
        Err(_) => None,
    }
}

/// Component `j` of a release, with missing trailing components read as zero.
pub open spec fn component(rel: Seq<u64>, j: int) -> u64 {
    if 0 <= j < rel.len() {
        rel[j]
    } else {
        0
    }
}

/// The acceptance window of the release pipeline: versions from 3.9 on.
pub fn default_window() -> (r: Vec<u64>)
    ensures
        r@ == seq![3u64, 9u64],
{
    let mut r: Vec<u64> = Vec::new();
    r.push(3);
    r.push(9);
    proof {
        assert(r@ =~= seq![3u64, 9u64]);
    }
    r
}

/// The release `rel` is at least `min`: componentwise lexicographic order,
/// with absent components read as zero.
pub open spec fn release_ge(rel: Seq<u64>, min: Seq<u64>) -> bool {
    (forall|j: int| 0 <= j < min.len() ==> component(rel, j) == min[j]) || (exists|i: int|
        0 <= i < min.len() && component(rel, i) > min[i] && forall|j: int|
            0 <= j < i ==> component(rel, j) == min[j])
}

/// Whether `rel` is at least the minimum version `min`.
pub fn release_at_least(rel: &Vec<u64>, min: &Vec<u64>) -> (r: bool)
    ensures
        r == release_ge(rel@, min@),
{
    let mut i: usize = 0;
    while i < min.len()
        invariant
            i <= min@.len(),
            forall|j: int| 0 <= j < i ==> component(rel@, j) == min@[j],
        decreases min.len() - i,
    {
        let c: u64 = if i < rel.len() {
            rel[i]
        } else {
            0
        };
        assert(c == component(rel@, i as int));
        if c > min[i] {
            return true;
        }
        if c < min[i] {
            proof {
                assert forall|k: int|
                    0 <= k < min@.len() implies !(component(rel@, k) > min@[k] && forall|j: int|
                    0 <= j < k ==> component(rel@, j) == min@[j]) by {
                    if k < i {
                        assert(component(rel@, k) == min@[k]);
                    } else if k == i {
                        assert(component(rel@, k) < min@[k]);
                    } else {
                        assert(component(rel@, i as int) != min@[i as int]);
                    }
                }
                assert(component(rel@, i as int) != min@[i as int]);
            }
            return false;
        }
        i = i + 1;
    }
    true
}

} // verus!
