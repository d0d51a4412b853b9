//! The binding generator: one `GeneratedBinding` per instruction, pairing its
//! 8-byte discriminator with the instruction's declared accounts and typed
//! arguments, checked for global discriminator uniqueness.

use crate::bytes::{bytes_eq, copy_bytes};
use crate::discriminator::{discriminator_for, spec_discriminator};
use crate::encode::{spec_encode_args, AccountMeta, ArgValue};
use crate::schema::{AccountSpec, ArgSpec, InstructionSpec, Schema};
use vstd::prelude::*;

verus! {

/// The read-only binding generated for one instruction: its name, its
/// discriminator, and the account and argument shapes used at call time.
pub struct GeneratedBinding {
    pub name: Vec<u8>,
    pub discriminator: Vec<u8>,
    pub accounts: Vec<AccountSpec>,
    pub args: Vec<ArgSpec>,
}

pub open spec fn accounts_agree(a: Seq<AccountSpec>, b: Seq<AccountSpec>) -> bool {
    &&& a.len() == b.len()
    &&& forall|i: int|
        0 <= i < a.len() ==> {
            &&& (#[trigger] a[i]).name@ == b[i].name@
            &&& a[i].mutable == b[i].mutable
            &&& a[i].signer == b[i].signer
        }
}

pub open spec fn args_agree(a: Seq<ArgSpec>, b: Seq<ArgSpec>) -> bool {
    &&& a.len() == b.len()
    &&& forall|i: int|
        0 <= i < a.len() ==> {
            &&& (#[trigger] a[i]).name@ == b[i].name@
            &&& a[i].ty == b[i].ty
        }
}

/// What generation guarantees of each binding: the name carried over, the
/// discriminator equal to the instruction's 8-byte tag, and the account and
/// argument lists mirrored in declared order.
pub open spec fn binding_matches(b: GeneratedBinding, ins: InstructionSpec) -> bool {
    &&& b.name@ == ins.name@
    &&& b.discriminator@ == spec_discriminator(ins.name@)
    &&& b.discriminator@.len() == 8
    &&& accounts_agree(b.accounts@, ins.accounts@)
    &&& args_agree(b.args@, ins.args@)
}

/// No two instructions of the set hash to the same discriminator.
pub open spec fn collision_free(instrs: Seq<InstructionSpec>) -> bool {
    forall|i: int, j: int|
        0 <= i < j < instrs.len() ==> spec_discriminator(instrs[i].name@) != spec_discriminator(
            instrs[j].name@,
        )
}

/// A discriminator collision is fatal at generation time; it carries the two
/// instruction names that hashed to the same tag.
#[derive(Debug)]
pub enum GenerationError {
    DiscriminatorCollision(Vec<u8>, Vec<u8>),
}

fn copy_accounts(src: &Vec<AccountSpec>) -> (r: Vec<AccountSpec>)
    ensures
        accounts_agree(r@, src@),
{
    let mut r: Vec<AccountSpec> = Vec::new();
    let mut i: usize = 0;
    while i < src.len()
        invariant
            i <= src@.len(),
            r@.len() == i,
            forall|k: int|
                0 <= k < i ==> {
                    &&& (#[trigger] r@[k]).name@ == src@[k].name@
                    &&& r@[k].mutable == src@[k].mutable
                    &&& r@[k].signer == src@[k].signer
                },
        decreases src@.len() - i,
    {
        let name = copy_bytes(&src[i].name);
        let mutable = src[i].mutable;
        let signer = src[i].signer;
        r.push(AccountSpec { name, mutable, signer });
        i += 1;
    }
    r
}

fn copy_args(src: &Vec<ArgSpec>) -> (r: Vec<ArgSpec>)
    ensures
        args_agree(r@, src@),
{
    let mut r: Vec<ArgSpec> = Vec::new();
    let mut i: usize = 0;
    while i < src.len()
        invariant
            i <= src@.len(),
            r@.len() == i,
            forall|k: int|
                0 <= k < i ==> {
                    &&& (#[trigger] r@[k]).name@ == src@[k].name@
                    &&& r@[k].ty == src@[k].ty
                },
        decreases src@.len() - i,
    {
        let name = copy_bytes(&src[i].name);
        let ty = src[i].ty;
        r.push(ArgSpec { name, ty });
        i += 1;
    }
    r
}

/// Generates the binding set for a schema. Succeeds exactly when no two
/// instructions share a discriminator; on success, the bindings mirror the
/// instructions in declared order.
pub fn generate(schema: &Schema) -> (r: Result<Vec<GeneratedBinding>, GenerationError>)
    ensures
        r is Ok <==> collision_free(schema.instructions@),
        r is Ok ==> {
            &&& r->Ok_0@.len() == schema.instructions@.len()
            &&& forall|i: int|
                0 <= i < schema.instructions@.len() ==> binding_matches(
                    #[trigger] r->Ok_0@[i],
                    schema.instructions@[i],
                )
        },
{
    let mut out: Vec<GeneratedBinding> = Vec::new();
    let n = schema.instructions.len();
    let mut i: usize = 0;
    while i < n
        invariant
            n == schema.instructions@.len(),
            i <= n,
            out@.len() == i,
            forall|k: int|
                0 <= k < i ==> binding_matches(#[trigger] out@[k], schema.instructions@[k]),
            forall|k1: int, k2: int|
                0 <= k1 < k2 < i ==> spec_discriminator(schema.instructions@[k1].name@)
                    != spec_discriminator(schema.instructions@[k2].name@),
        decreases n - i,
    {
        let disc = discriminator_for(&schema.instructions[i].name);
        let mut j: usize = 0;
        while j < out.len()
            invariant
                out@.len() == i,
                i < n,
                n == schema.instructions@.len(),
                j <= i,
                disc@ == spec_discriminator(schema.instructions@[i as int].name@),
                forall|k: int|
                    0 <= k < i ==> binding_matches(#[trigger] out@[k], schema.instructions@[k]),
                forall|k: int|
                    0 <= k < j ==> spec_discriminator(schema.instructions@[k].name@)
                        != spec_discriminator(schema.instructions@[i as int].name@),
            decreases out@.len() - j,
        {
            if bytes_eq(&out[j].discriminator, &disc) {
                let earlier = copy_bytes(&out[j].name);
                let later = copy_bytes(&schema.instructions[i].name);
                proof {
                    assert(spec_discriminator(schema.instructions@[j as int].name@)
                        == spec_discriminator(schema.instructions@[i as int].name@));
                }
                return Err(GenerationError::DiscriminatorCollision(earlier, later));
            }
            j += 1;
        }
        let name = copy_bytes(&schema.instructions[i].name);
        let accounts = copy_accounts(&schema.instructions[i].accounts);
        let args = copy_args(&schema.instructions[i].args);
        out.push(GeneratedBinding { name, discriminator: disc, accounts, args });
        i += 1;
    }
    Ok(out)
}

impl GeneratedBinding {
    /// Encodes a call of this instruction: discriminator, then each argument
    /// in declared order.
    pub fn encode(&self, args: &Vec<ArgValue>) -> (r: Vec<u8>)
        ensures
            r@ == self.discriminator@ + spec_encode_args(args@),
    {
        crate::encode::encode(&self.discriminator, args)
    }

    /// The ordered account list for a call, one meta per declared account.
    pub fn to_metas(&self, addresses: &Vec<Vec<u8>>) -> (r: Vec<AccountMeta>)
        requires
            addresses@.len() == self.accounts@.len(),
        ensures
            r@.len() == self.accounts@.len(),
            forall|i: int|
                0 <= i < r@.len() ==> {
                    &&& (#[trigger] r@[i]).address@ == addresses@[i]@
                    &&& r@[i].signer == self.accounts@[i].signer
                    &&& r@[i].writable == self.accounts@[i].mutable
                },
    {
        crate::encode::to_metas(&self.accounts, addresses)
    }
}

/// Law: in a generated binding set, discriminators are pairwise distinct and
/// each is exactly 8 bytes long.
pub proof fn lemma_discriminators_unique(bindings: Seq<GeneratedBinding>, instrs: Seq<
    InstructionSpec,
>)
    requires
        bindings.len() == instrs.len(),
        forall|i: int| 0 <= i < instrs.len() ==> binding_matches(#[trigger] bindings[i], instrs[i]),
        collision_free(instrs),
    ensures
        forall|i: int| 0 <= i < bindings.len() ==> (#[trigger] bindings[i]).discriminator@.len() == 8,
        forall|i: int, j: int|
            0 <= i < j < bindings.len() ==> bindings[i].discriminator@
                != bindings[j].discriminator@,
{
}

/// Law: regeneration is deterministic. Any two binding sets generated from an
/// unchanged instruction sequence have byte-identical names, discriminators,
/// account orderings and argument orderings, position by position.
pub proof fn lemma_generation_deterministic(
    a: Seq<GeneratedBinding>,
    b: Seq<GeneratedBinding>,
    instrs: Seq<InstructionSpec>,
)
    requires
        a.len() == instrs.len(),
        b.len() == instrs.len(),
        forall|i: int| 0 <= i < instrs.len() ==> binding_matches(#[trigger] a[i], instrs[i]),
        forall|i: int| 0 <= i < instrs.len() ==> binding_matches(#[trigger] b[i], instrs[i]),
    ensures
        forall|i: int|
            0 <= i < instrs.len() ==> {
                &&& (#[trigger] a[i]).name@ == b[i].name@
                &&& a[i].discriminator@ == b[i].discriminator@
                &&& accounts_agree(a[i].accounts@, b[i].accounts@)
                &&& args_agree(a[i].args@, b[i].args@)
            },
{
    assert forall|i: int| 0 <= i < instrs.len() implies {
        &&& (#[trigger] a[i]).name@ == b[i].name@
        &&& a[i].discriminator@ == b[i].discriminator@
        &&& accounts_agree(a[i].accounts@, b[i].accounts@)
        &&& args_agree(a[i].args@, b[i].args@)
    } by {
        assert(binding_matches(a[i], instrs[i]));
        assert(binding_matches(b[i], instrs[i]));
    }
}

} // verus!
