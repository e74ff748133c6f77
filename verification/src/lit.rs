//! The fixed text tokens of the filename conventions and of the release
//! protocol, as byte strings, each available both as a spec-level sequence
//! and as an executable vector proved equal to it.

use vstd::prelude::*;

verus! {

/// The bytes of `"cpython"`.
pub open spec fn spec_project() -> Seq<u8> {
    seq![99u8, 112u8, 121u8, 116u8, 104u8, 111u8, 110u8]
}

/// The bytes of `"cpython"`.
pub fn project() -> (r: Vec<u8>)
    ensures
        r@ == spec_project(),
{
    let mut r: Vec<u8> = Vec::new();
    r.push(99u8);
    r.push(112u8);
    r.push(121u8);
    r.push(116u8);
    r.push(104u8);
    r.push(111u8);
    r.push(110u8);
    proof {
        assert(r@ =~= spec_project());
    }
    r
}

/// The bytes of `"-"`.
pub open spec fn spec_dash() -> Seq<u8> {
    seq![45u8]
}

/// The bytes of `"-"`.
pub fn dash() -> (r: Vec<u8>)
    ensures
        r@ == spec_dash(),
{
    let mut r: Vec<u8> = Vec::new();
    r.push(45u8);
    proof {
        assert(r@ =~= spec_dash());
    }
    r
}

/// The bytes of `"+"`.
pub open spec fn spec_plus() -> Seq<u8> {
    seq![43u8]
}

/// The bytes of `"+"`.
pub fn plus() -> (r: Vec<u8>)
    ensures
        r@ == spec_plus(),
{
    let mut r: Vec<u8> = Vec::new();
    r.push(43u8);
    proof {
        assert(r@ =~= spec_plus());
    }
    r
}

/// The bytes of `"\n"`.
pub open spec fn spec_newline() -> Seq<u8> {
    seq![10u8]
}

/// The bytes of `"\n"`.
pub fn newline() -> (r: Vec<u8>)
    ensures
        r@ == spec_newline(),
{
    let mut r: Vec<u8> = Vec::new();
    r.push(10u8);
    proof {
        assert(r@ =~= spec_newline());
    }
    r
}

/// The bytes of `"  "`.
pub open spec fn spec_double_space() -> Seq<u8> {
    seq![32u8, 32u8]
}

/// The bytes of `"  "`.
pub fn double_space() -> (r: Vec<u8>)
    ensures
        r@ == spec_double_space(),
{
    let mut r: Vec<u8> = Vec::new();
    r.push(32u8);
    r.push(32u8);
    proof {
        assert(r@ =~= spec_double_space());
    }
    r
}

/// The bytes of `".tar.zst"`.
pub open spec fn spec_ext_tar_zst() -> Seq<u8> {
    seq![46u8, 116u8, 97u8, 114u8, 46u8, 122u8, 115u8, 116u8]
}

/// The bytes of `".tar.zst"`.
pub fn ext_tar_zst() -> (r: Vec<u8>)
    ensures
        r@ == spec_ext_tar_zst(),
{
    let mut r: Vec<u8> = Vec::new();
    r.push(46u8);
    r.push(116u8);
    r.push(97u8);
    r.push(114u8);
    r.push(46u8);
    r.push(122u8);
    r.push(115u8);
    r.push(116u8);
    proof {
        assert(r@ =~= spec_ext_tar_zst());
    }
    r
}

/// The bytes of `".tar.gz"`.
pub open spec fn spec_ext_tar_gz() -> Seq<u8> {
    seq![46u8, 116u8, 97u8, 114u8, 46u8, 103u8, 122u8]
}

/// The bytes of `".tar.gz"`.
pub fn ext_tar_gz() -> (r: Vec<u8>)
    ensures
        r@ == spec_ext_tar_gz(),
{
    let mut r: Vec<u8> = Vec::new();
    r.push(46u8);
    r.push(116u8);
    r.push(97u8);
    r.push(114u8);
    r.push(46u8);
    r.push(103u8);
    r.push(122u8);
    proof {
        assert(r@ =~= spec_ext_tar_gz());
    }
    r
}

/// The bytes of `"install_only"`.
pub open spec fn spec_install_only() -> Seq<u8> {
    seq![105u8, 110u8, 115u8, 116u8, 97u8, 108u8, 108u8, 95u8, 111u8, 110u8, 108u8, 121u8]
}

/// The bytes of `"install_only"`.
pub fn install_only() -> (r: Vec<u8>)
    ensures
        r@ == spec_install_only(),
{
    let mut r: Vec<u8> = Vec::new();
    r.push(105u8);
    r.push(110u8);
    r.push(115u8);
    r.push(116u8);
    r.push(97u8);
    r.push(108u8);
    r.push(108u8);
    r.push(95u8);
    r.push(111u8);
    r.push(110u8);
    r.push(108u8);
    r.push(121u8);
    proof {
        assert(r@ =~= spec_install_only());
    }
    r
}

/// The bytes of `"install_only_stripped"`.
pub open spec fn spec_install_only_stripped() -> Seq<u8> {
    seq![105u8, 110u8, 115u8, 116u8, 97u8, 108u8, 108u8, 95u8, 111u8, 110u8, 108u8, 121u8, 95u8, 115u8, 116u8, 114u8, 105u8, 112u8, 112u8, 101u8, 100u8]
}

/// The bytes of `"install_only_stripped"`.
pub fn install_only_stripped() -> (r: Vec<u8>)
    ensures
        r@ == spec_install_only_stripped(),
{
    let mut r: Vec<u8> = Vec::new();
    r.push(105u8);
    r.push(110u8);
    r.push(115u8);
    r.push(116u8);
    r.push(97u8);
    r.push(108u8);
    r.push(108u8);
    r.push(95u8);
    r.push(111u8);
    r.push(110u8);
    r.push(108u8);
    r.push(121u8);
    r.push(95u8);
    r.push(115u8);
    r.push(116u8);
    r.push(114u8);
    r.push(105u8);
    r.push(112u8);
    r.push(112u8);
    r.push(101u8);
    r.push(100u8);
    proof {
        assert(r@ =~= spec_install_only_stripped());
    }
    r
}

/// The bytes of `"full"`.
pub open spec fn spec_full_marker() -> Seq<u8> {
    seq![102u8, 117u8, 108u8, 108u8]
}

/// The bytes of `"full"`.
pub fn full_marker() -> (r: Vec<u8>)
    ensures
        r@ == spec_full_marker(),
{
    let mut r: Vec<u8> = Vec::new();
    r.push(102u8);
    r.push(117u8);
    r.push(108u8);
    r.push(108u8);
    proof {
        assert(r@ =~= spec_full_marker());
    }
    r
}

/// The bytes of `"SHA256SUMS"`.
pub open spec fn spec_manifest_name() -> Seq<u8> {
    seq![83u8, 72u8, 65u8, 50u8, 53u8, 54u8, 83u8, 85u8, 77u8, 83u8]
}

/// The bytes of `"SHA256SUMS"`.
pub fn manifest_name() -> (r: Vec<u8>)
    ensures
        r@ == spec_manifest_name(),
{
    let mut r: Vec<u8> = Vec::new();
    r.push(83u8);
    r.push(72u8);
    r.push(65u8);
    r.push(50u8);
    r.push(53u8);
    r.push(54u8);
    r.push(83u8);
    r.push(85u8);
    r.push(77u8);
    r.push(83u8);
    proof {
        assert(r@ =~= spec_manifest_name());
    }
    r
}

/// The bytes of `".github/workflows/linux.yml"`.
pub open spec fn spec_workflow_linux() -> Seq<u8> {
    seq![46u8, 103u8, 105u8, 116u8, 104u8, 117u8, 98u8, 47u8, 119u8, 111u8, 114u8, 107u8, 102u8, 108u8, 111u8, 119u8, 115u8, 47u8, 108u8, 105u8, 110u8, 117u8, 120u8, 46u8, 121u8, 109u8, 108u8]
}

/// The bytes of `".github/workflows/linux.yml"`.
pub fn workflow_linux() -> (r: Vec<u8>)
    ensures
        r@ == spec_workflow_linux(),
{
    let mut r: Vec<u8> = Vec::new();
    r.push(46u8);
    r.push(103u8);
    r.push(105u8);
    r.push(116u8);
    r.push(104u8);
    r.push(117u8);
    r.push(98u8);
    r.push(47u8);
    r.push(119u8);
    r.push(111u8);
    r.push(114u8);
    r.push(107u8);
    r.push(102u8);
    r.push(108u8);
    r.push(111u8);
    r.push(119u8);
    r.push(115u8);
    r.push(47u8);
    r.push(108u8);
    r.push(105u8);
    r.push(110u8);
    r.push(117u8);
    r.push(120u8);
    r.push(46u8);
    r.push(121u8);
    r.push(109u8);
    r.push(108u8);
    proof {
        assert(r@ =~= spec_workflow_linux());
    }
    r
}

/// The bytes of `"pythonbuild"`.
pub open spec fn spec_bundle_pythonbuild() -> Seq<u8> {
    seq![112u8, 121u8, 116u8, 104u8, 111u8, 110u8, 98u8, 117u8, 105u8, 108u8, 100u8]
}

/// The bytes of `"pythonbuild"`.
pub fn bundle_pythonbuild() -> (r: Vec<u8>)
    ensures
        r@ == spec_bundle_pythonbuild(),
{
    let mut r: Vec<u8> = Vec::new();
    r.push(112u8);
    r.push(121u8);
    r.push(116u8);
    r.push(104u8);
    r.push(111u8);
    r.push(110u8);
    r.push(98u8);
    r.push(117u8);
    r.push(105u8);
    r.push(108u8);
    r.push(100u8);
    proof {
        assert(r@ =~= spec_bundle_pythonbuild());
    }
    r
}

/// The bytes of `"toolchain"`.
pub open spec fn spec_bundle_toolchain() -> Seq<u8> {
    seq![116u8, 111u8, 111u8, 108u8, 99u8, 104u8, 97u8, 105u8, 110u8]
}

/// The bytes of `"toolchain"`.
pub fn bundle_toolchain() -> (r: Vec<u8>)
    ensures
        r@ == spec_bundle_toolchain(),
{
    let mut r: Vec<u8> = Vec::new();
    r.push(116u8);
    r.push(111u8);
    r.push(111u8);
    r.push(108u8);
    r.push(99u8);
    r.push(104u8);
    r.push(97u8);
    r.push(105u8);
    r.push(110u8);
    proof {
        assert(r@ =~= spec_bundle_toolchain());
    }
    r
}

/// The bytes of `"install-only"`.
pub open spec fn spec_install_only_dashed() -> Seq<u8> {
    seq![105u8, 110u8, 115u8, 116u8, 97u8, 108u8, 108u8, 45u8, 111u8, 110u8, 108u8, 121u8]
}

/// The bytes of `"install-only"`.
pub fn install_only_dashed() -> (r: Vec<u8>)
    ensures
        r@ == spec_install_only_dashed(),
{
    let mut r: Vec<u8> = Vec::new();
    r.push(105u8);
    r.push(110u8);
    r.push(115u8);
    r.push(116u8);
    r.push(97u8);
    r.push(108u8);
    r.push(108u8);
    r.push(45u8);
    r.push(111u8);
    r.push(110u8);
    r.push(108u8);
    r.push(121u8);
    proof {
        assert(r@ =~= spec_install_only_dashed());
    }
    r
}

/// The bytes of `"%7B"`.
pub open spec fn spec_placeholder() -> Seq<u8> {
    seq![37u8, 55u8, 66u8]
}

/// The bytes of `"%7B"`.
pub fn placeholder() -> (r: Vec<u8>)
    ensures
        r@ == spec_placeholder(),
{
    let mut r: Vec<u8> = Vec::new();
    r.push(37u8);
    r.push(55u8);
    r.push(66u8);
    proof {
        assert(r@ =~= spec_placeholder());
    }
    r
}

} // verus!