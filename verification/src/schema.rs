//! In-memory model of the interface-description schema: instructions with
//! their ordered accounts and ordered, typed arguments.

use vstd::prelude::*;

verus! {

/// The closed vocabulary of argument types an instruction may declare.
#[derive(Clone, Copy, PartialEq, Eq, Structural, Debug)]
pub enum ArgType {
    U8,
    U16,
    U32,
    U64,
    I8,
    I16,
    I32,
    I64,
    Bool,
    Pubkey,
    Str,
}

/// One account an instruction touches: its name and whether the remote
/// program may write to it and whether it must co-sign the request.
pub struct AccountSpec {
    pub name: Vec<u8>,
    pub mutable: bool,
    pub signer: bool,
}

/// One typed argument of an instruction.
pub struct ArgSpec {
    pub name: Vec<u8>,
    pub ty: ArgType,
}

/// One callable operation of the remote program. Account and argument order
/// is load-bearing: it fixes the wire order.
pub struct InstructionSpec {
    pub name: Vec<u8>,
    pub accounts: Vec<AccountSpec>,
    pub args: Vec<ArgSpec>,
}

/// An ordered sequence of instructions; names are unique once loaded.
pub struct Schema {
    pub instructions: Vec<InstructionSpec>,
}

pub open spec fn wf_instruction(ins: InstructionSpec) -> bool {
    ins.name@.len() > 0
}

pub open spec fn distinct_names(instrs: Seq<InstructionSpec>) -> bool {
    forall|i: int, j: int|
        0 <= i < j < instrs.len() ==> instrs[i].name@ != instrs[j].name@
}

/// What the loader establishes: every instruction has a non-empty name and
/// no two instructions share a name.
pub open spec fn wf_schema(s: Schema) -> bool {
    &&& forall|i: int|
        0 <= i < s.instructions@.len() ==> wf_instruction(#[trigger] s.instructions@[i])
    &&& distinct_names(s.instructions@)
}

/// Errors a schema document can be rejected with; each carries the offending
/// field, type tag or instruction name where one exists.
#[derive(Debug)]
pub enum SchemaError {
    MalformedDocument,
    MissingField(Vec<u8>),
    UnknownType(Vec<u8>),
    DuplicateInstructionName(Vec<u8>),
}

} // verus!
