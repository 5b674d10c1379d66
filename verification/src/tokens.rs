//! The ASCII tokens the scanners look for, as byte sequences.

use vstd::prelude::*;

verus! {

/// The bytes of `<!--`, the start of an HTML comment.
pub open spec fn comment_open_spec() -> Seq<u8> {
    seq![60u8, 33u8, 45u8, 45u8]
}

pub fn comment_open() -> (r: [u8; 4])
    ensures
        r@ == comment_open_spec(),
{
    let r = [60u8, 33u8, 45u8, 45u8];
    assert(r@ =~= comment_open_spec());
    r
}

/// The bytes of `-->`, the end of an HTML comment.
pub open spec fn comment_close_spec() -> Seq<u8> {
    seq![45u8, 45u8, 62u8]
}

pub fn comment_close() -> (r: [u8; 3])
    ensures
        r@ == comment_close_spec(),
{
    let r = [45u8, 45u8, 62u8];
    assert(r@ =~= comment_close_spec());
    r
}

/// The bytes of `supersigil-xml`, the info string of a spec fence.
pub open spec fn supersigil_xml_spec() -> Seq<u8> {
    seq![115u8, 117u8, 112u8, 101u8, 114u8, 115u8, 105u8, 103u8, 105u8, 108u8, 45u8, 120u8, 109u8, 108u8]
}

pub fn supersigil_xml() -> (r: [u8; 14])
    ensures
        r@ == supersigil_xml_spec(),
{
    let r = [115u8, 117u8, 112u8, 101u8, 114u8, 115u8, 105u8, 103u8, 105u8, 108u8, 45u8, 120u8, 109u8, 108u8];
    assert(r@ =~= supersigil_xml_spec());
    r
}

/// The bytes of `refs="`.
pub open spec fn refs_attr_spec() -> Seq<u8> {
    seq![114u8, 101u8, 102u8, 115u8, 61u8, 34u8]
}

pub fn refs_attr() -> (r: [u8; 6])
    ensures
        r@ == refs_attr_spec(),
{
    let r = [114u8, 101u8, 102u8, 115u8, 61u8, 34u8];
    assert(r@ =~= refs_attr_spec());
    r
}

/// The bytes of `implements="`.
pub open spec fn implements_attr_spec() -> Seq<u8> {
    seq![105u8, 109u8, 112u8, 108u8, 101u8, 109u8, 101u8, 110u8, 116u8, 115u8, 61u8, 34u8]
}

pub fn implements_attr() -> (r: [u8; 12])
    ensures
        r@ == implements_attr_spec(),
{
    let r = [105u8, 109u8, 112u8, 108u8, 101u8, 109u8, 101u8, 110u8, 116u8, 115u8, 61u8, 34u8];
    assert(r@ =~= implements_attr_spec());
    r
}

/// The bytes of `depends="`.
pub open spec fn depends_attr_spec() -> Seq<u8> {
    seq![100u8, 101u8, 112u8, 101u8, 110u8, 100u8, 115u8, 61u8, 34u8]
}

pub fn depends_attr() -> (r: [u8; 9])
    ensures
        r@ == depends_attr_spec(),
{
    let r = [100u8, 101u8, 112u8, 101u8, 110u8, 100u8, 115u8, 61u8, 34u8];
    assert(r@ =~= depends_attr_spec());
    r
}

/// The bytes of `verifies="`.
pub open spec fn verifies_attr_spec() -> Seq<u8> {
    seq![118u8, 101u8, 114u8, 105u8, 102u8, 105u8, 101u8, 115u8, 61u8, 34u8]
}

pub fn verifies_attr() -> (r: [u8; 10])
    ensures
        r@ == verifies_attr_spec(),
{
    let r = [118u8, 101u8, 114u8, 105u8, 102u8, 105u8, 101u8, 115u8, 61u8, 34u8];
    assert(r@ =~= verifies_attr_spec());
    r
}

/// The bytes of `id="`.
pub open spec fn id_attr_spec() -> Seq<u8> {
    seq![105u8, 100u8, 61u8, 34u8]
}

pub fn id_attr() -> (r: [u8; 4])
    ensures
        r@ == id_attr_spec(),
{
    let r = [105u8, 100u8, 61u8, 34u8];
    assert(r@ =~= id_attr_spec());
    r
}

/// The bytes of ` id="` (an `id` attribute after whitespace).
pub open spec fn space_id_attr_spec() -> Seq<u8> {
    seq![32u8, 105u8, 100u8, 61u8, 34u8]
}

pub fn space_id_attr() -> (r: [u8; 5])
    ensures
        r@ == space_id_attr_spec(),
{
    let r = [32u8, 105u8, 100u8, 61u8, 34u8];
    assert(r@ =~= space_id_attr_spec());
    r
}

/// The bytes of `supersigil-ref=`, the info-string token naming an example.
pub open spec fn supersigil_ref_spec() -> Seq<u8> {
    seq![115u8, 117u8, 112u8, 101u8, 114u8, 115u8, 105u8, 103u8, 105u8, 108u8, 45u8, 114u8, 101u8, 102u8, 61u8]
}

pub fn supersigil_ref() -> (r: [u8; 15])
    ensures
        r@ == supersigil_ref_spec(),
{
    let r = [115u8, 117u8, 112u8, 101u8, 114u8, 115u8, 105u8, 103u8, 105u8, 108u8, 45u8, 114u8, 101u8, 102u8, 61u8];
    assert(r@ =~= supersigil_ref_spec());
    r
}

/// The bytes of `strategy="`.
pub open spec fn strategy_attr_spec() -> Seq<u8> {
    seq![115u8, 116u8, 114u8, 97u8, 116u8, 101u8, 103u8, 121u8, 61u8, 34u8]
}

pub fn strategy_attr() -> (r: [u8; 10])
    ensures
        r@ == strategy_attr_spec(),
{
    let r = [115u8, 116u8, 114u8, 97u8, 116u8, 101u8, 103u8, 121u8, 61u8, 34u8];
    assert(r@ =~= strategy_attr_spec());
    r
}

/// The bytes of `status="`.
pub open spec fn status_attr_spec() -> Seq<u8> {
    seq![115u8, 116u8, 97u8, 116u8, 117u8, 115u8, 61u8, 34u8]
}

pub fn status_attr() -> (r: [u8; 8])
    ensures
        r@ == status_attr_spec(),
{
    let r = [115u8, 116u8, 97u8, 116u8, 117u8, 115u8, 61u8, 34u8];
    assert(r@ =~= status_attr_spec());
    r
}

/// The bytes of `---`, the frontmatter delimiter.
pub open spec fn yaml_fence_spec() -> Seq<u8> {
    seq![45u8, 45u8, 45u8]
}

pub fn yaml_fence() -> (r: [u8; 3])
    ensures
        r@ == yaml_fence_spec(),
{
    let r = [45u8, 45u8, 45u8];
    assert(r@ =~= yaml_fence_spec());
    r
}

/// The bytes of `id:`, the frontmatter id key.
pub open spec fn id_key_spec() -> Seq<u8> {
    seq![105u8, 100u8, 58u8]
}

pub fn id_key() -> (r: [u8; 3])
    ensures
        r@ == id_key_spec(),
{
    let r = [105u8, 100u8, 58u8];
    assert(r@ =~= id_key_spec());
    r
}

} // verus!
