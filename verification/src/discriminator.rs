//! The discriminator engine: each instruction is identified on the wire by
//! the first 8 bytes of a SHA-256 digest over `"global:"` followed by the
//! instruction's name.

use sha2::Digest;
use vstd::assert_seqs_equal;
use vstd::prelude::*;

verus! {

/// The digest that the outside hash routine computes; a pure function of the
/// input bytes, named here rather than restated.
pub uninterp spec fn sha256_of(input: Seq<u8>) -> Seq<u8>;

/// Relies on `sha2::Sha256` through `Digest::digest`: the 32-byte digest is a
/// function of the input bytes alone, identical across processes and machines.
#[verifier::external_body]
pub(crate) fn sha256(input: &Vec<u8>) -> (r: Vec<u8>)
    ensures
        r@ == sha256_of(input@),
        r@.len() == 32,
{
    sha2::Sha256::digest(input.as_slice()).to_vec()
}

/// The namespace prefix `"global:"` under which instruction names are hashed.
pub open spec fn spec_global_prefix() -> Seq<u8> {
    seq![103u8, 108u8, 111u8, 98u8, 97u8, 108u8, 58u8]
}

fn global_prefix() -> (r: Vec<u8>)
    ensures
        r@ == spec_global_prefix(),
{
    let mut r: Vec<u8> = Vec::new();
    r.push(103);
    r.push(108);
    r.push(111);
    r.push(98);
    r.push(97);
    r.push(108);
    r.push(58);
    proof {
        assert_seqs_equal!(r@ == spec_global_prefix());
    }
    r
}

/// The discriminator of an instruction name: the first 8 bytes of the digest
/// of the namespaced name.
pub open spec fn spec_discriminator(name: Seq<u8>) -> Seq<u8> {
    sha256_of(spec_global_prefix() + name).take(8)
}

/// Computes the 8-byte discriminator for an instruction name. Deterministic:
/// the result is a function of the name alone.
pub fn discriminator_for(name: &Vec<u8>) -> (r: Vec<u8>)
    ensures
        r@ == spec_discriminator(name@),
        r@.len() == 8,
{
    let mut input = global_prefix();
    let mut i: usize = 0;
    while i < name.len()
        invariant
            i <= name@.len(),
            input@ == spec_global_prefix() + name@.take(i as int),
        decreases name@.len() - i,
    {
        input.push(name[i]);
        proof {
            assert_seqs_equal!(input@ == spec_global_prefix() + name@.take(i + 1 as int));
        }
        i += 1;
    }
    proof {
        assert(name@.take(name@.len() as int) == name@);
    }
    let mut digest = sha256(&input);
    digest.truncate(8);
    proof {
        assert_seqs_equal!(digest@ == spec_discriminator(name@));
    }
    digest
}

} // verus!
