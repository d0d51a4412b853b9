//! The address deriver: a bounded, deterministic search for a resource
//! address. A bump candidate runs from 255 downward; each candidate address
//! is the digest of the namespace tag, the seeds, the bump, the target
//! program and a fixed domain marker, and is accepted only if it is not a
//! valid curve point, so that it can never collide with a key-pair address.

use crate::bytes::{append_bytes, copy_bytes};
use crate::discriminator::{sha256, sha256_of};
use vstd::assert_seqs_equal;
use vstd::prelude::*;

verus! {

/// Whether 32 bytes are the compressed form of a point on the edwards25519
/// curve; a pure function of the bytes, named here rather than restated.
pub uninterp spec fn on_curve(b: Seq<u8>) -> bool;

/// Relies on `curve25519_dalek::edwards::CompressedEdwardsY::decompress`:
/// whether a 32-byte value decompresses to a curve point depends on the
/// bytes alone.
#[verifier::external_body]
fn bytes_on_curve(b: &Vec<u8>) -> (r: bool)
    requires
        b@.len() == 32,
    ensures
        r == on_curve(b@),
{
    match curve25519_dalek::edwards::CompressedEdwardsY::from_slice(b.as_slice()) {
        Ok(p) => p.decompress().is_some(),
        Err(_) => false,
    }
}

/// The fixed domain marker `"ProgramDerivedAddress"` appended to every
/// candidate's hash input.
pub open spec fn spec_pda_marker() -> Seq<u8> {
    seq![
        80u8, 114u8, 111u8, 103u8, 114u8, 97u8, 109u8, 68u8, 101u8, 114u8, 105u8, 118u8, 101u8,
        100u8, 65u8, 100u8, 100u8, 114u8, 101u8, 115u8, 115u8,
    ]
}

fn pda_marker() -> (r: Vec<u8>)
    ensures
        r@ == spec_pda_marker(),
{
    let mut r: Vec<u8> = Vec::new();
    r.push(80);
    r.push(114);
    r.push(111);
    r.push(103);
    r.push(114);
    r.push(97);
    r.push(109);
    r.push(68);
    r.push(101);
    r.push(114);
    r.push(105);
    r.push(118);
    r.push(101);
    r.push(100);
    r.push(65);
    r.push(100);
    r.push(100);
    r.push(114);
    r.push(101);
    r.push(115);
    r.push(115);
    proof {
        assert_seqs_equal!(r@ == spec_pda_marker());
    }
    r
}

/// The seed byte-strings of `seeds[i..]` concatenated in order.
pub open spec fn spec_concat_seeds(seeds: Seq<Seq<u8>>, i: int) -> Seq<u8>
    decreases seeds.len() - i,
{
    if i < 0 || i >= seeds.len() {
        Seq::empty()
    } else {
        seeds[i] + spec_concat_seeds(seeds, i + 1)
    }
}

pub open spec fn seeds_view(seeds: Seq<Vec<u8>>) -> Seq<Seq<u8>> {
    seeds.map_values(|v: Vec<u8>| v@)
}

/// The candidate address tried for one bump value.
pub open spec fn spec_candidate(
    ns: Seq<u8>,
    seeds: Seq<Seq<u8>>,
    bump: u8,
    program: Seq<u8>,
) -> Seq<u8> {
    sha256_of(ns + spec_concat_seeds(seeds, 0) + seq![bump] + program + spec_pda_marker())
}

/// A bump is valid when its candidate is not a curve point.
pub open spec fn spec_valid_bump(ns: Seq<u8>, seeds: Seq<Seq<u8>>, program: Seq<u8>, bump: u8) -> bool {
    !on_curve(spec_candidate(ns, seeds, bump, program))
}

/// The first valid bump at or below `b`, searching downward.
pub open spec fn spec_search(ns: Seq<u8>, seeds: Seq<Seq<u8>>, program: Seq<u8>, b: int) -> Option<
    u8,
>
    decreases b + 1,
{
    if b < 0 {
        None
    } else if spec_valid_bump(ns, seeds, program, b as u8) {
        Some(b as u8)
    } else {
        spec_search(ns, seeds, program, b - 1)
    }
}

/// What derivation returns: the candidate of the largest valid bump, if any
/// bump in 0..=255 is valid.
pub open spec fn spec_derive(ns: Seq<u8>, seeds: Seq<Seq<u8>>, program: Seq<u8>) -> Option<
    (Seq<u8>, u8),
> {
    match spec_search(ns, seeds, program, 255) {
        Some(b) => Some((spec_candidate(ns, seeds, b, program), b)),
        None => None,
    }
}

/// A derived resource address and its disambiguating bump.
pub struct DerivedAddress {
    pub address: Vec<u8>,
    pub bump: u8,
}

/// No bump candidate in the bounded domain produced a valid address; a hard
/// failure, never retried with mutated seeds.
#[derive(Debug)]
pub enum DeriveError {
    DerivationExhausted,
}

fn build_candidate_input(ns: &Vec<u8>, seeds: &Vec<Vec<u8>>, bump: u8, program: &Vec<u8>) -> (r:
    Vec<u8>)
    ensures
        r@ == ns@ + spec_concat_seeds(seeds_view(seeds@), 0) + seq![bump] + program@
            + spec_pda_marker(),
{
    let mut r = copy_bytes(ns);
    append_seeds_from(&mut r, seeds, 0);
    r.push(bump);
    append_bytes(&mut r, program);
    let marker = pda_marker();
    append_bytes(&mut r, &marker);
    proof {
        assert(r@ =~= ns@ + spec_concat_seeds(seeds_view(seeds@), 0) + seq![bump] + program@
            + spec_pda_marker());
    }
    r
}

fn append_seeds_from(out: &mut Vec<u8>, seeds: &Vec<Vec<u8>>, i: usize)
    requires
        i <= seeds@.len(),
    ensures
        final(out)@ == old(out)@ + spec_concat_seeds(seeds_view(seeds@), i as int),
    decreases seeds@.len() - i,
{
    if i < seeds.len() {
        append_bytes(out, &seeds[i]);
        append_seeds_from(out, seeds, i + 1);
        proof {
            assert(seeds_view(seeds@)[i as int] == seeds@[i as int]@);
            assert(out@ =~= old(out)@ + spec_concat_seeds(seeds_view(seeds@), i as int));
        }
    } else {
        proof {
            assert(out@ =~= out@ + spec_concat_seeds(seeds_view(seeds@), i as int));
        }
    }
}

/// Derives a resource address from a namespace tag, ordered seed
/// byte-strings and the 32-byte target program identifier. Searches bumps
/// from 255 downward and returns the first candidate off the curve; reports
/// exhaustion exactly when no bump in the domain is valid.
pub fn derive(namespace_tag: &Vec<u8>, seeds: &Vec<Vec<u8>>, program: &Vec<u8>) -> (r: Result<
    DerivedAddress,
    DeriveError,
>)
    requires
        program@.len() == 32,
    ensures
        r is Ok <==> spec_derive(namespace_tag@, seeds_view(seeds@), program@) is Some,
        r is Ok ==> {
            &&& r->Ok_0.address@ == spec_derive(namespace_tag@, seeds_view(seeds@), program@)
                ->Some_0.0
            &&& r->Ok_0.bump == spec_derive(namespace_tag@, seeds_view(seeds@), program@)->Some_0.1
            &&& r->Ok_0.address@.len() == 32
        },
{
    let ghost ns = namespace_tag@;
    let ghost sv = seeds_view(seeds@);
    let ghost pg = program@;
    let mut bump: u8 = 255;
    loop
        invariant
            program@.len() == 32,
            ns == namespace_tag@,
            sv == seeds_view(seeds@),
            pg == program@,
            spec_search(ns, sv, pg, 255) == spec_search(ns, sv, pg, bump as int),
        decreases bump,
    {
        let input = build_candidate_input(namespace_tag, seeds, bump, program);
        let h = sha256(&input);
        if !bytes_on_curve(&h) {
            proof {
                assert(h@ == spec_candidate(ns, sv, bump, pg));
                assert(spec_valid_bump(ns, sv, pg, bump));
                assert(spec_search(ns, sv, pg, bump as int) == Some(bump));
            }
            return Ok(DerivedAddress { address: h, bump });
        }
        if bump == 0 {
            proof {
                assert(spec_search(ns, sv, pg, 0) is None);
            }
            return Err(DeriveError::DerivationExhausted);
        }
        proof {
            assert(spec_search(ns, sv, pg, bump as int) == spec_search(
                ns,
                sv,
                pg,
                bump as int - 1,
            ));
        }
        bump = bump - 1;
    }
}

/// Law: derivation is deterministic. Equal namespace tag, seeds and target
/// program always yield an equal address and bump.
pub proof fn lemma_derive_deterministic(
    ns1: Seq<u8>,
    seeds1: Seq<Seq<u8>>,
    program1: Seq<u8>,
    ns2: Seq<u8>,
    seeds2: Seq<Seq<u8>>,
    program2: Seq<u8>,
)
    requires
        ns1 == ns2,
        seeds1 == seeds2,
        program1 == program2,
    ensures
        spec_derive(ns1, seeds1, program1) == spec_derive(ns2, seeds2, program2),
{
}

/// The namespace tag `"token"` under which per-owner token records live.
pub open spec fn spec_token_tag() -> Seq<u8> {
    seq![116u8, 111u8, 107u8, 101u8, 110u8]
}

fn token_tag() -> (r: Vec<u8>)
    ensures
        r@ == spec_token_tag(),
{
    let mut r: Vec<u8> = Vec::new();
    r.push(116);
    r.push(111);
    r.push(107);
    r.push(101);
    r.push(110);
    proof {
        assert_seqs_equal!(r@ == spec_token_tag());
    }
    r
}

/// The address of the token record for an owner and a mint under a program:
/// derivation under the `"token"` namespace with the owner's and the mint's
/// identifiers as the seeds, in that order.
pub fn derive_token_account(owner: &Vec<u8>, mint: &Vec<u8>, program: &Vec<u8>) -> (r: Result<
    DerivedAddress,
    DeriveError,
>)
    requires
        owner@.len() == 32,
        mint@.len() == 32,
        program@.len() == 32,
    ensures
        r is Ok <==> spec_derive(spec_token_tag(), seq![owner@, mint@], program@) is Some,
        r is Ok ==> {
            &&& r->Ok_0.address@ == spec_derive(spec_token_tag(), seq![owner@, mint@], program@)
                ->Some_0.0
            &&& r->Ok_0.bump == spec_derive(spec_token_tag(), seq![owner@, mint@], program@)
                ->Some_0.1
            &&& r->Ok_0.address@.len() == 32
        },
{
    let tag = token_tag();
    let mut seeds: Vec<Vec<u8>> = Vec::new();
    seeds.push(copy_bytes(owner));
    seeds.push(copy_bytes(mint));
    proof {
        assert_seqs_equal!(seeds_view(seeds@) == seq![owner@, mint@]);
    }
    derive(&tag, &seeds, program)
}

} // verus!
