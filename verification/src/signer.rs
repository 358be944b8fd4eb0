//! The signature envelope: hashing a body tree's serialized form and
//! prepending a cell that carries the raw signature followed by the raw
//! public key as the body's leading reference. Producing the signature
//! itself takes a secret key and is the caller's affair.

use vstd::prelude::*;
use crate::cell::{Cell, CellVal, val_wf, MAX_CELL_REFS};
use crate::codec::{cell_bytes, serialize_cell};

verus! {

/// Length of a raw signature, in bytes.
pub const SIGNATURE_LEN: usize = 64;

/// Length of a raw public key, in bytes.
pub const PUBLIC_KEY_LEN: usize = 32;

/// The digest of a byte string, as the outside hash function computes it.
pub uninterp spec fn sha256_of(bytes: Seq<u8>) -> Seq<u8>;

/// Relies on sha2::Sha256 through sha2::Digest::digest: the result is a
/// 32-byte digest and a function of the input bytes alone.
#[verifier::external_body]
fn sha256_bytes(bytes: &Vec<u8>) -> (r: Vec<u8>)
    ensures
        r@ == sha256_of(bytes@),
        r@.len() == 32,
{
    <sha2::Sha256 as sha2::Digest>::digest(bytes.as_slice()).to_vec()
}

/// The content hash a signature covers: the digest of the body tree's
/// canonical serialized form, not of its raw top bytes.
pub fn body_digest(body: &Cell) -> (r: Vec<u8>)
    requires
        val_wf(body@),
    ensures
        r@ == sha256_of(cell_bytes(body@)),
        r@.len() == 32,
{
    let mut buf: Vec<u8> = Vec::new();
    serialize_cell(body, &mut buf);
    proof {
        assert(buf@ =~= cell_bytes(body@));
    }
    sha256_bytes(&buf)
}

/// The value of a signature envelope cell: the raw signature bytes
/// followed immediately by the raw public key bytes, no length prefixes,
/// no references.
pub open spec fn envelope_val(sig: Seq<u8>, pk: Seq<u8>) -> CellVal {
    CellVal { data: sig + pk, refs: Seq::empty() }
}

/// Prepends the signature envelope to the body: afterwards the body's
/// leading reference is exactly `signature ++ public_key`, and the
/// body's own content and remaining references are untouched.
pub fn sign_body(body: &mut Cell, signature: &Vec<u8>, public_key: &Vec<u8>)
    requires
        val_wf(old(body)@),
        old(body)@.refs.len() < MAX_CELL_REFS,
        signature@.len() == SIGNATURE_LEN,
        public_key@.len() == PUBLIC_KEY_LEN,
    ensures
        final(body)@.data == old(body)@.data,
        final(body)@.refs == seq![envelope_val(signature@, public_key@)] + old(body)@.refs,
        val_wf(final(body)@),
{
    let mut env_data: Vec<u8> = Vec::new();
    env_data.extend_from_slice(signature.as_slice());
    env_data.extend_from_slice(public_key.as_slice());
    let env = Cell::leaf(env_data);
    let mut new_refs: Vec<Cell> = Vec::new();
    new_refs.push(env);
    let n = body.refs.len();
    let mut i: usize = 0;
    while i < n
        invariant
            n == body.refs@.len(),
            i <= n,
            new_refs@.len() == i + 1,
            new_refs@[0]@ == envelope_val(signature@, public_key@),
            forall|j: int| 0 <= j < i ==> #[trigger] new_refs@[j + 1]@ == body.refs@[j]@,
        decreases n - i,
    {
        let child = body.refs[i].duplicate();
        new_refs.push(child);
        i += 1;
    }
    body.refs = new_refs;
    proof {
        assert(body@.data == old(body)@.data);
        assert(body@.refs.len() == old(body)@.refs.len() + 1);
        assert(body@.refs[0] == envelope_val(signature@, public_key@));
        assert forall|j: int| 1 <= j < body@.refs.len() implies #[trigger] body@.refs[j]
            == old(body)@.refs[j - 1] by {
            assert(body@.refs[j] == body.refs@[j]@);
            assert(new_refs@[(j - 1) + 1]@ == body.refs@[j]@);
            assert(old(body)@.refs[j - 1] == old(body).refs@[j - 1]@);
        }
        assert(body@.refs =~= seq![envelope_val(signature@, public_key@)] + old(body)@.refs);
        assert(val_wf(envelope_val(signature@, public_key@)));
        assert forall|j: int| 0 <= j < body@.refs.len() implies val_wf(
            #[trigger] body@.refs[j],
        ) by {
            if j > 0 {
                assert(body@.refs[j] == old(body)@.refs[j - 1]);
                assert(val_wf(old(body)@.refs[j - 1]));
            }
        }
        assert(val_wf(body@));
    }
}

} // verus!
