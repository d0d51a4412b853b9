//! The encoding runtime: `encode` lays out a discriminator followed by each
//! argument in declared order under a fixed, type-directed binary encoding;
//! `to_metas` lists the accounts of a call in declared order with their flags.

use crate::bytes::{append_bytes, copy_bytes};
use crate::schema::{AccountSpec, ArgSpec, ArgType};
use vstd::prelude::*;

verus! {

/// A runtime argument value, tagged with its wire type.
pub enum ArgValue {
    U8(u8),
    U16(u16),
    U32(u32),
    U64(u64),
    I8(i8),
    I16(i16),
    I32(i32),
    I64(i64),
    Bool(bool),
    Pubkey(Vec<u8>),
    Str(Vec<u8>),
}

pub open spec fn arg_type_of(v: ArgValue) -> ArgType {
    match v {
        ArgValue::U8(_) => ArgType::U8,
        ArgValue::U16(_) => ArgType::U16,
        ArgValue::U32(_) => ArgType::U32,
        ArgValue::U64(_) => ArgType::U64,
        ArgValue::I8(_) => ArgType::I8,
        ArgValue::I16(_) => ArgType::I16,
        ArgValue::I32(_) => ArgType::I32,
        ArgValue::I64(_) => ArgType::I64,
        ArgValue::Bool(_) => ArgType::Bool,
        ArgValue::Pubkey(_) => ArgType::Pubkey,
        ArgValue::Str(_) => ArgType::Str,
    }
}

/// A value is well formed when an address holds exactly 32 bytes and a
/// string's length fits the 4-byte length prefix.
pub open spec fn wf_value(v: ArgValue) -> bool {
    match v {
        ArgValue::Pubkey(p) => p@.len() == 32,
        ArgValue::Str(s) => s@.len() <= 0xFFFF_FFFF,
        _ => true,
    }
}

/// The `n` little-endian bytes of `x`.
pub open spec fn spec_le_bytes(x: u64, n: nat) -> Seq<u8>
    decreases n,
{
    if n == 0 {
        Seq::empty()
    } else {
        seq![(x % 256) as u8] + spec_le_bytes(x / 256, (n - 1) as nat)
    }
}

/// The wire encoding of one value: integers little-endian at their declared
/// width (signed ones in two's complement), booleans one byte, addresses
/// verbatim, strings a 4-byte length prefix then the raw bytes.
pub open spec fn spec_encode_value(v: ArgValue) -> Seq<u8> {
    match v {
        ArgValue::U8(x) => spec_le_bytes(x as u64, 1),
        ArgValue::U16(x) => spec_le_bytes(x as u64, 2),
        ArgValue::U32(x) => spec_le_bytes(x as u64, 4),
        ArgValue::U64(x) => spec_le_bytes(x, 8),
        ArgValue::I8(x) => spec_le_bytes((x as u8) as u64, 1),
        ArgValue::I16(x) => spec_le_bytes((x as u16) as u64, 2),
        ArgValue::I32(x) => spec_le_bytes((x as u32) as u64, 4),
        ArgValue::I64(x) => spec_le_bytes(x as u64, 8),
        ArgValue::Bool(b) => seq![if b { 1u8 } else { 0u8 }],
        ArgValue::Pubkey(p) => p@,
        ArgValue::Str(s) => spec_le_bytes(s@.len() as u64, 4) + s@,
    }
}

/// The concatenated encodings of `args[i..]` in declared order.
pub open spec fn spec_encode_args_from(args: Seq<ArgValue>, i: int) -> Seq<u8>
    decreases args.len() - i,
{
    if i < 0 || i >= args.len() {
        Seq::empty()
    } else {
        spec_encode_value(args[i]) + spec_encode_args_from(args, i + 1)
    }
}

pub open spec fn spec_encode_args(args: Seq<ArgValue>) -> Seq<u8> {
    spec_encode_args_from(args, 0)
}

fn push_le_bytes(out: &mut Vec<u8>, x: u64, n: usize)
    ensures
        final(out)@ == old(out)@ + spec_le_bytes(x, n as nat),
    decreases n,
{
    if n == 0 {
        proof {
            assert(out@ =~= out@ + spec_le_bytes(x, 0));
        }
    } else {
        out.push((x % 256) as u8);
        push_le_bytes(out, x / 256, n - 1);
        proof {
            assert(out@ =~= old(out)@ + spec_le_bytes(x, n as nat));
        }
    }
}

/// Appends the wire encoding of one value.
fn encode_value(out: &mut Vec<u8>, v: &ArgValue)
    ensures
        final(out)@ == old(out)@ + spec_encode_value(*v),
{
    match v {
        ArgValue::U8(x) => push_le_bytes(out, *x as u64, 1),
        ArgValue::U16(x) => push_le_bytes(out, *x as u64, 2),
        ArgValue::U32(x) => push_le_bytes(out, *x as u64, 4),
        ArgValue::U64(x) => push_le_bytes(out, *x, 8),
        ArgValue::I8(x) => push_le_bytes(out, (*x as u8) as u64, 1),
        ArgValue::I16(x) => push_le_bytes(out, (*x as u16) as u64, 2),
        ArgValue::I32(x) => push_le_bytes(out, (*x as u32) as u64, 4),
        ArgValue::I64(x) => push_le_bytes(out, *x as u64, 8),
        ArgValue::Bool(b) => {
            out.push(if *b { 1 } else { 0 });
        },
        ArgValue::Pubkey(p) => append_bytes(out, p),
        ArgValue::Str(s) => {
            push_le_bytes(out, s.len() as u64, 4);
            append_bytes(out, s);
            proof {
                assert(out@ =~= old(out)@ + spec_encode_value(*v));
            }
        },
    }
}

fn encode_args_from(out: &mut Vec<u8>, args: &Vec<ArgValue>, i: usize)
    requires
        i <= args@.len(),
    ensures
        final(out)@ == old(out)@ + spec_encode_args_from(args@, i as int),
    decreases args@.len() - i,
{
    if i < args.len() {
        encode_value(out, &args[i]);
        encode_args_from(out, args, i + 1);
        proof {
            assert(out@ =~= old(out)@ + spec_encode_args_from(args@, i as int));
        }
    } else {
        proof {
            assert(out@ =~= out@ + spec_encode_args_from(args@, i as int));
        }
    }
}

/// Encodes a call: the 8-byte discriminator followed by each argument's
/// encoding in declared order. Total over all argument vectors; no padding
/// and no alignment beyond field boundaries.
pub fn encode(discriminator: &Vec<u8>, args: &Vec<ArgValue>) -> (r: Vec<u8>)
    ensures
        r@ == discriminator@ + spec_encode_args(args@),
{
    let mut r = copy_bytes(discriminator);
    encode_args_from(&mut r, args, 0);
    r
}

/// One entry of the ordered account list handed to the transport: a resolved
/// address and the declared signer and writable flags.
pub struct AccountMeta {
    pub address: Vec<u8>,
    pub signer: bool,
    pub writable: bool,
}

/// Emits one meta per declared account, in declared order, copying the
/// caller-resolved address at each position and the schema's flags verbatim.
/// Never sorts and never deduplicates: accounts are indexed positionally.
pub fn to_metas(accounts: &Vec<AccountSpec>, addresses: &Vec<Vec<u8>>) -> (r: Vec<AccountMeta>)
    requires
        addresses@.len() == accounts@.len(),
    ensures
        r@.len() == accounts@.len(),
        forall|i: int|
            0 <= i < r@.len() ==> {
                &&& (#[trigger] r@[i]).address@ == addresses@[i]@
                &&& r@[i].signer == accounts@[i].signer
                &&& r@[i].writable == accounts@[i].mutable
            },
{
    let mut r: Vec<AccountMeta> = Vec::new();
    let mut i: usize = 0;
    while i < accounts.len()
        invariant
            i <= accounts@.len(),
            addresses@.len() == accounts@.len(),
            r@.len() == i,
            forall|k: int|
                0 <= k < i ==> {
                    &&& (#[trigger] r@[k]).address@ == addresses@[k]@
                    &&& r@[k].signer == accounts@[k].signer
                    &&& r@[k].writable == accounts@[k].mutable
                },
        decreases accounts@.len() - i,
    {
        let address = copy_bytes(&addresses[i]);
        let signer = accounts[i].signer;
        let writable = accounts[i].mutable;
        r.push(AccountMeta { address, signer, writable });
        i += 1;
    }
    r
}

/// Whether a value vector is a well-formed record for an argument list: same
/// length, each value of the declared type and well formed. Establishing this
/// is a construction-time duty of the calling code; `encode` itself is total.
pub open spec fn args_conform(args: Seq<ArgValue>, specs: Seq<ArgSpec>) -> bool {
    &&& args.len() == specs.len()
    &&& forall|i: int|
        0 <= i < args.len() ==> arg_type_of(#[trigger] args[i]) == specs[i].ty && wf_value(
            args[i],
        )
}

fn value_has_type(v: &ArgValue, t: ArgType) -> (r: bool)
    ensures
        r == (arg_type_of(*v) == t),
{
    let vt = match v {
        ArgValue::U8(_) => ArgType::U8,
        ArgValue::U16(_) => ArgType::U16,
        ArgValue::U32(_) => ArgType::U32,
        ArgValue::U64(_) => ArgType::U64,
        ArgValue::I8(_) => ArgType::I8,
        ArgValue::I16(_) => ArgType::I16,
        ArgValue::I32(_) => ArgType::I32,
        ArgValue::I64(_) => ArgType::I64,
        ArgValue::Bool(_) => ArgType::Bool,
        ArgValue::Pubkey(_) => ArgType::Pubkey,
        ArgValue::Str(_) => ArgType::Str,
    };
    vt == t
}

fn value_wf(v: &ArgValue) -> (r: bool)
    ensures
        r == wf_value(*v),
{
    match v {
        ArgValue::Pubkey(p) => p.len() == 32,
        ArgValue::Str(s) => s.len() <= 0xFFFF_FFFF,
        _ => true,
    }
}

/// Checks a value vector against an instruction's declared argument list.
pub fn check_args(args: &Vec<ArgValue>, specs: &Vec<ArgSpec>) -> (r: bool)
    ensures
        r == args_conform(args@, specs@),
{
    if args.len() != specs.len() {
        return false;
    }
    let mut i: usize = 0;
    while i < args.len()
        invariant
            i <= args@.len(),
            args@.len() == specs@.len(),
            forall|k: int|
                0 <= k < i ==> arg_type_of(#[trigger] args@[k]) == specs@[k].ty && wf_value(
                    args@[k],
                ),
        decreases args@.len() - i,
    {
        if !value_has_type(&args[i], specs[i].ty) {
            return false;
        }
        if !value_wf(&args[i]) {
            return false;
        }
        i += 1;
    }
    true
}

/// The least number of bytes a value of a type can encode to.
pub open spec fn spec_min_width(t: ArgType) -> nat {
    match t {
        ArgType::U8 => 1,
        ArgType::U16 => 2,
        ArgType::U32 => 4,
        ArgType::U64 => 8,
        ArgType::I8 => 1,
        ArgType::I16 => 2,
        ArgType::I32 => 4,
        ArgType::I64 => 8,
        ArgType::Bool => 1,
        ArgType::Pubkey => 32,
        ArgType::Str => 4,
    }
}

pub open spec fn spec_min_len_from(args: Seq<ArgValue>, i: int) -> nat
    decreases args.len() - i,
{
    if i < 0 || i >= args.len() {
        0
    } else {
        spec_min_width(arg_type_of(args[i])) + spec_min_len_from(args, i + 1)
    }
}

pub open spec fn spec_min_len(args: Seq<ArgValue>) -> nat {
    spec_min_len_from(args, 0)
}

pub proof fn lemma_le_bytes_len(x: u64, n: nat)
    ensures
        spec_le_bytes(x, n).len() == n,
    decreases n,
{
    if n > 0 {
        lemma_le_bytes_len(x / 256, (n - 1) as nat);
    }
}

pub proof fn lemma_encode_value_min(v: ArgValue)
    requires
        wf_value(v),
    ensures
        spec_encode_value(v).len() >= spec_min_width(arg_type_of(v)),
{
    match v {
        ArgValue::U8(x) => lemma_le_bytes_len(x as u64, 1),
        ArgValue::U16(x) => lemma_le_bytes_len(x as u64, 2),
        ArgValue::U32(x) => lemma_le_bytes_len(x as u64, 4),
        ArgValue::U64(x) => lemma_le_bytes_len(x, 8),
        ArgValue::I8(x) => lemma_le_bytes_len((x as u8) as u64, 1),
        ArgValue::I16(x) => lemma_le_bytes_len((x as u16) as u64, 2),
        ArgValue::I32(x) => lemma_le_bytes_len((x as u32) as u64, 4),
        ArgValue::I64(x) => lemma_le_bytes_len(x as u64, 8),
        ArgValue::Bool(_) => {},
        ArgValue::Pubkey(_) => {},
        ArgValue::Str(s) => lemma_le_bytes_len(s@.len() as u64, 4),
    }
}

pub proof fn lemma_encode_args_min(args: Seq<ArgValue>, i: int)
    requires
        0 <= i <= args.len(),
        forall|k: int| 0 <= k < args.len() ==> wf_value(#[trigger] args[k]),
    ensures
        spec_encode_args_from(args, i).len() >= spec_min_len_from(args, i),
    decreases args.len() - i,
{
    if i < args.len() {
        lemma_encode_value_min(args[i]);
        lemma_encode_args_min(args, i + 1);
    }
}

/// Law: the encoding of a call begins with exactly the 8-byte discriminator,
/// and is at least 8 bytes plus the sum of each argument's minimum width.
pub proof fn lemma_encode_shape(disc: Seq<u8>, args: Seq<ArgValue>)
    requires
        disc.len() == 8,
        forall|k: int| 0 <= k < args.len() ==> wf_value(#[trigger] args[k]),
    ensures
        (disc + spec_encode_args(args)).take(8) == disc,
        (disc + spec_encode_args(args)).len() >= 8 + spec_min_len(args),
{
    assert((disc + spec_encode_args(args)).take(8) =~= disc);
    lemma_encode_args_min(args, 0);
}

} // verus!
