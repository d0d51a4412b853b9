//! The schema loader: turns a parsed document into a validated `Schema`.
//! Success and the loaded value are specified exactly over the document
//! tree: loading succeeds if and only if the tree is a valid schema
//! document, and the schema then mirrors it entry by entry.

use crate::bytes::{bytes_eq, copy_bytes};
use crate::json::{
    entries_equiv, items_equiv, json_equiv, lemma_entries_equiv_index, lemma_items_equiv_index,
    lemma_value_unique, spec_document_holds, spec_skip_ws, spec_value_end, Json,
};
use crate::schema::{wf_schema, AccountSpec, ArgSpec, ArgType, InstructionSpec, Schema, SchemaError};
use vstd::prelude::*;

verus! {

/// The value under `key` in an object's entries at or after `i`: first match
/// wins.
pub open spec fn obj_get_from(entries: Seq<(Vec<u8>, Json)>, key: Seq<u8>, i: int) -> Option<Json>
    decreases entries.len() - i,
{
    if i < 0 || i >= entries.len() {
        None
    } else if entries[i].0@ == key {
        Some(entries[i].1)
    } else {
        obj_get_from(entries, key, i + 1)
    }
}

pub open spec fn obj_get(entries: Seq<(Vec<u8>, Json)>, key: Seq<u8>) -> Option<Json> {
    obj_get_from(entries, key, 0)
}

pub open spec fn key_instructions() -> Seq<u8> {
    seq![105u8, 110u8, 115u8, 116u8, 114u8, 117u8, 99u8, 116u8, 105u8, 111u8, 110u8, 115u8]
}

pub open spec fn key_name() -> Seq<u8> {
    seq![110u8, 97u8, 109u8, 101u8]
}

pub open spec fn key_accounts() -> Seq<u8> {
    seq![97u8, 99u8, 99u8, 111u8, 117u8, 110u8, 116u8, 115u8]
}

pub open spec fn key_args() -> Seq<u8> {
    seq![97u8, 114u8, 103u8, 115u8]
}

pub open spec fn key_mutable() -> Seq<u8> {
    seq![109u8, 117u8, 116u8, 97u8, 98u8, 108u8, 101u8]
}

pub open spec fn key_signer() -> Seq<u8> {
    seq![115u8, 105u8, 103u8, 110u8, 101u8, 114u8]
}

pub open spec fn key_type() -> Seq<u8> {
    seq![116u8, 121u8, 112u8, 101u8]
}

/// The type a textual tag denotes, if it is in the closed vocabulary.
pub open spec fn spec_arg_type_of_tag(tag: Seq<u8>) -> Option<ArgType> {
    if tag == seq![117u8, 56u8] {
        Some(ArgType::U8)
    } else if tag == seq![117u8, 49u8, 54u8] {
        Some(ArgType::U16)
    } else if tag == seq![117u8, 51u8, 50u8] {
        Some(ArgType::U32)
    } else if tag == seq![117u8, 54u8, 52u8] {
        Some(ArgType::U64)
    } else if tag == seq![105u8, 56u8] {
        Some(ArgType::I8)
    } else if tag == seq![105u8, 49u8, 54u8] {
        Some(ArgType::I16)
    } else if tag == seq![105u8, 51u8, 50u8] {
        Some(ArgType::I32)
    } else if tag == seq![105u8, 54u8, 52u8] {
        Some(ArgType::I64)
    } else if tag == seq![98u8, 111u8, 111u8, 108u8] {
        Some(ArgType::Bool)
    } else if tag == seq![112u8, 117u8, 98u8, 107u8, 101u8, 121u8] {
        Some(ArgType::Pubkey)
    } else if tag == seq![115u8, 116u8, 114u8, 105u8, 110u8, 103u8] {
        Some(ArgType::Str)
    } else {
        None
    }
}

/// An account entry: an object with a textual name and two boolean flags.
pub open spec fn valid_account_entry(j: Json) -> bool {
    &&& j is Obj
    &&& obj_get(j->Obj_0@, key_name()) matches Some(n) && n is Text
    &&& obj_get(j->Obj_0@, key_mutable()) matches Some(m) && m is Bool
    &&& obj_get(j->Obj_0@, key_signer()) matches Some(s) && s is Bool
}

pub open spec fn account_matches(j: Json, a: AccountSpec) -> bool {
    &&& valid_account_entry(j)
    &&& a.name@ == obj_get(j->Obj_0@, key_name())->Some_0->Text_0@
    &&& a.mutable == obj_get(j->Obj_0@, key_mutable())->Some_0->Bool_0
    &&& a.signer == obj_get(j->Obj_0@, key_signer())->Some_0->Bool_0
}

/// An argument entry: an object with a textual name and a recognized type
/// tag.
pub open spec fn valid_arg_entry(j: Json) -> bool {
    &&& j is Obj
    &&& obj_get(j->Obj_0@, key_name()) matches Some(n) && n is Text
    &&& obj_get(j->Obj_0@, key_type()) matches Some(t) && t is Text
    &&& spec_arg_type_of_tag(obj_get(j->Obj_0@, key_type())->Some_0->Text_0@) is Some
}

pub open spec fn arg_matches(j: Json, a: ArgSpec) -> bool {
    &&& valid_arg_entry(j)
    &&& a.name@ == obj_get(j->Obj_0@, key_name())->Some_0->Text_0@
    &&& Some(a.ty) == spec_arg_type_of_tag(obj_get(j->Obj_0@, key_type())->Some_0->Text_0@)
}

/// An instruction entry: an object with a non-empty textual name, an array
/// of valid account entries and an array of valid argument entries.
pub open spec fn valid_instruction_entry(j: Json) -> bool {
    &&& j is Obj
    &&& obj_get(j->Obj_0@, key_name()) matches Some(n) && n is Text && n->Text_0@.len() > 0
    &&& obj_get(j->Obj_0@, key_accounts()) matches Some(a) && a is Arr
    &&& forall|k: int|
        0 <= k < obj_get(j->Obj_0@, key_accounts())->Some_0->Arr_0@.len()
            ==> valid_account_entry(
            #[trigger] obj_get(j->Obj_0@, key_accounts())->Some_0->Arr_0@[k],
        )
    &&& obj_get(j->Obj_0@, key_args()) matches Some(a) && a is Arr
    &&& forall|k: int|
        0 <= k < obj_get(j->Obj_0@, key_args())->Some_0->Arr_0@.len() ==> valid_arg_entry(
            #[trigger] obj_get(j->Obj_0@, key_args())->Some_0->Arr_0@[k],
        )
}

pub open spec fn instr_name_of(j: Json) -> Seq<u8> {
    obj_get(j->Obj_0@, key_name())->Some_0->Text_0@
}

pub open spec fn instruction_matches(j: Json, ins: InstructionSpec) -> bool {
    &&& valid_instruction_entry(j)
    &&& ins.name@ == instr_name_of(j)
    &&& ins.accounts@.len() == obj_get(j->Obj_0@, key_accounts())->Some_0->Arr_0@.len()
    &&& forall|k: int|
        0 <= k < ins.accounts@.len() ==> account_matches(
            obj_get(j->Obj_0@, key_accounts())->Some_0->Arr_0@[k],
            #[trigger] ins.accounts@[k],
        )
    &&& ins.args@.len() == obj_get(j->Obj_0@, key_args())->Some_0->Arr_0@.len()
    &&& forall|k: int|
        0 <= k < ins.args@.len() ==> arg_matches(
            obj_get(j->Obj_0@, key_args())->Some_0->Arr_0@[k],
            #[trigger] ins.args@[k],
        )
}

/// A schema document: an object whose `instructions` entry is an array of
/// valid instruction entries with pairwise-distinct names.
pub open spec fn valid_document(j: Json) -> bool {
    &&& j is Obj
    &&& obj_get(j->Obj_0@, key_instructions()) matches Some(a) && a is Arr
    &&& forall|k: int|
        0 <= k < obj_get(j->Obj_0@, key_instructions())->Some_0->Arr_0@.len()
            ==> valid_instruction_entry(
            #[trigger] obj_get(j->Obj_0@, key_instructions())->Some_0->Arr_0@[k],
        )
    &&& forall|k1: int, k2: int|
        0 <= k1 < k2 < obj_get(j->Obj_0@, key_instructions())->Some_0->Arr_0@.len()
            ==> instr_name_of(obj_get(j->Obj_0@, key_instructions())->Some_0->Arr_0@[k1])
            != instr_name_of(obj_get(j->Obj_0@, key_instructions())->Some_0->Arr_0@[k2])
}

pub open spec fn schema_matches(j: Json, s: Schema) -> bool {
    &&& valid_document(j)
    &&& s.instructions@.len() == obj_get(j->Obj_0@, key_instructions())->Some_0->Arr_0@.len()
    &&& forall|k: int|
        0 <= k < s.instructions@.len() ==> instruction_matches(
            obj_get(j->Obj_0@, key_instructions())->Some_0->Arr_0@[k],
            #[trigger] s.instructions@[k],
        )
}

/// The instruction entries of a document whose shape is already known.
pub open spec fn instr_entries_of(j: Json) -> Seq<Json> {
    obj_get(j->Obj_0@, key_instructions())->Some_0->Arr_0@
}

/// Two instruction entries of the document carry the name `n`.
pub open spec fn has_duplicate_name(j: Json, n: Seq<u8>) -> bool {
    exists|k1: int, k2: int|
        0 <= k1 < k2 < instr_entries_of(j).len() && instr_name_of(
            #[trigger] instr_entries_of(j)[k1],
        ) == n && instr_name_of(#[trigger] instr_entries_of(j)[k2]) == n
}

/// The field names of the schema document format.
pub open spec fn is_schema_key(f: Seq<u8>) -> bool {
    ||| f == key_instructions()
    ||| f == key_name()
    ||| f == key_accounts()
    ||| f == key_args()
    ||| f == key_mutable()
    ||| f == key_signer()
    ||| f == key_type()
}

proof fn lemma_obj_get_equiv(
    a: Seq<(Vec<u8>, Json)>,
    b: Seq<(Vec<u8>, Json)>,
    key: Seq<u8>,
    i: int,
)
    requires
        entries_equiv(a, b),
        0 <= i,
    ensures
        obj_get_from(a, key, i) is Some <==> obj_get_from(b, key, i) is Some,
        obj_get_from(a, key, i) is Some ==> json_equiv(
            obj_get_from(a, key, i)->Some_0,
            obj_get_from(b, key, i)->Some_0,
        ),
    decreases a.len() - i,
{
    assert(a.len() == b.len());
    if i < a.len() {
        lemma_entries_equiv_index(a, b, i);
        if a[i].0@ != key {
            lemma_obj_get_equiv(a, b, key, i + 1);
        }
    }
}

proof fn lemma_valid_account_equiv(j1: Json, j2: Json)
    requires
        json_equiv(j1, j2),
        valid_account_entry(j1),
    ensures
        valid_account_entry(j2),
{
    lemma_obj_get_equiv(j1->Obj_0@, j2->Obj_0@, key_name(), 0);
    lemma_obj_get_equiv(j1->Obj_0@, j2->Obj_0@, key_mutable(), 0);
    lemma_obj_get_equiv(j1->Obj_0@, j2->Obj_0@, key_signer(), 0);
}

proof fn lemma_valid_arg_equiv(j1: Json, j2: Json)
    requires
        json_equiv(j1, j2),
        valid_arg_entry(j1),
    ensures
        valid_arg_entry(j2),
{
    lemma_obj_get_equiv(j1->Obj_0@, j2->Obj_0@, key_name(), 0);
    lemma_obj_get_equiv(j1->Obj_0@, j2->Obj_0@, key_type(), 0);
    assert(obj_get(j2->Obj_0@, key_type())->Some_0->Text_0@ == obj_get(
        j1->Obj_0@,
        key_type(),
    )->Some_0->Text_0@);
}

proof fn lemma_valid_instruction_equiv(j1: Json, j2: Json)
    requires
        json_equiv(j1, j2),
        valid_instruction_entry(j1),
    ensures
        valid_instruction_entry(j2),
        instr_name_of(j2) == instr_name_of(j1),
{
    lemma_obj_get_equiv(j1->Obj_0@, j2->Obj_0@, key_name(), 0);
    lemma_obj_get_equiv(j1->Obj_0@, j2->Obj_0@, key_accounts(), 0);
    lemma_obj_get_equiv(j1->Obj_0@, j2->Obj_0@, key_args(), 0);
    let acc1 = obj_get(j1->Obj_0@, key_accounts())->Some_0->Arr_0@;
    let acc2 = obj_get(j2->Obj_0@, key_accounts())->Some_0->Arr_0@;
    assert(items_equiv(acc1, acc2));
    assert(acc1.len() == acc2.len());
    assert forall|k: int| 0 <= k < acc2.len() implies valid_account_entry(#[trigger] acc2[k]) by {
        lemma_items_equiv_index(acc1, acc2, k);
        assert(valid_account_entry(acc1[k]));
        lemma_valid_account_equiv(acc1[k], acc2[k]);
    }
    let args1 = obj_get(j1->Obj_0@, key_args())->Some_0->Arr_0@;
    let args2 = obj_get(j2->Obj_0@, key_args())->Some_0->Arr_0@;
    assert(items_equiv(args1, args2));
    assert(args1.len() == args2.len());
    assert forall|k: int| 0 <= k < args2.len() implies valid_arg_entry(#[trigger] args2[k]) by {
        lemma_items_equiv_index(args1, args2, k);
        assert(valid_arg_entry(args1[k]));
        lemma_valid_arg_equiv(args1[k], args2[k]);
    }
}

/// Validity carries over between trees that hold the same data: the loader
/// accepts one exactly when it accepts the other.
proof fn lemma_valid_document_equiv(j1: Json, j2: Json)
    requires
        json_equiv(j1, j2),
        valid_document(j1),
    ensures
        valid_document(j2),
{
    lemma_obj_get_equiv(j1->Obj_0@, j2->Obj_0@, key_instructions(), 0);
    let a1 = obj_get(j1->Obj_0@, key_instructions())->Some_0->Arr_0@;
    let a2 = obj_get(j2->Obj_0@, key_instructions())->Some_0->Arr_0@;
    assert(items_equiv(a1, a2));
    assert(a1.len() == a2.len());
    assert forall|k: int| 0 <= k < a2.len() implies valid_instruction_entry(
        #[trigger] a2[k],
    ) by {
        lemma_items_equiv_index(a1, a2, k);
        assert(valid_instruction_entry(a1[k]));
        lemma_valid_instruction_equiv(a1[k], a2[k]);
    }
    assert forall|k1: int, k2: int| 0 <= k1 < k2 < a2.len() implies instr_name_of(
        #[trigger] a2[k1],
    ) != instr_name_of(#[trigger] a2[k2]) by {
        lemma_items_equiv_index(a1, a2, k1);
        lemma_items_equiv_index(a1, a2, k2);
        assert(valid_instruction_entry(a1[k1]) && valid_instruction_entry(a1[k2]));
        lemma_valid_instruction_equiv(a1[k1], a2[k1]);
        lemma_valid_instruction_equiv(a1[k2], a2[k2]);
        assert(instr_name_of(a1[k1]) != instr_name_of(a1[k2]));
    }
}

fn key_instructions_vec() -> (r: Vec<u8>)
    ensures
        r@ == key_instructions(),
{
    let mut r: Vec<u8> = Vec::new();
    r.push(105);
    r.push(110);
    r.push(115);
    r.push(116);
    r.push(114);
    r.push(117);
    r.push(99);
    r.push(116);
    r.push(105);
    r.push(111);
    r.push(110);
    r.push(115);
    proof {
        assert(r@ =~= key_instructions());
    }
    r
}

fn key_name_vec() -> (r: Vec<u8>)
    ensures
        r@ == key_name(),
{
    let mut r: Vec<u8> = Vec::new();
    r.push(110);
    r.push(97);
    r.push(109);
    r.push(101);
    proof {
        assert(r@ =~= key_name());
    }
    r
}

fn key_accounts_vec() -> (r: Vec<u8>)
    ensures
        r@ == key_accounts(),
{
    let mut r: Vec<u8> = Vec::new();
    r.push(97);
    r.push(99);
    r.push(99);
    r.push(111);
    r.push(117);
    r.push(110);
    r.push(116);
    r.push(115);
    proof {
        assert(r@ =~= key_accounts());
    }
    r
}

fn key_args_vec() -> (r: Vec<u8>)
    ensures
        r@ == key_args(),
{
    let mut r: Vec<u8> = Vec::new();
    r.push(97);
    r.push(114);
    r.push(103);
    r.push(115);
    proof {
        assert(r@ =~= key_args());
    }
    r
}

fn key_mutable_vec() -> (r: Vec<u8>)
    ensures
        r@ == key_mutable(),
{
    let mut r: Vec<u8> = Vec::new();
    r.push(109);
    r.push(117);
    r.push(116);
    r.push(97);
    r.push(98);
    r.push(108);
    r.push(101);
    proof {
        assert(r@ =~= key_mutable());
    }
    r
}

fn key_signer_vec() -> (r: Vec<u8>)
    ensures
        r@ == key_signer(),
{
    let mut r: Vec<u8> = Vec::new();
    r.push(115);
    r.push(105);
    r.push(103);
    r.push(110);
    r.push(101);
    r.push(114);
    proof {
        assert(r@ =~= key_signer());
    }
    r
}

fn key_type_vec() -> (r: Vec<u8>)
    ensures
        r@ == key_type(),
{
    let mut r: Vec<u8> = Vec::new();
    r.push(116);
    r.push(121);
    r.push(112);
    r.push(101);
    proof {
        assert(r@ =~= key_type());
    }
    r
}

/// Looks a key up among an object's entries; first match wins.
fn obj_find<'a>(entries: &'a Vec<(Vec<u8>, Json)>, key: &Vec<u8>) -> (r: Option<&'a Json>)
    ensures
        match r {
            Some(v) => obj_get(entries@, key@) == Some(*v),
            None => obj_get(entries@, key@) is None,
        },
{
    let mut i: usize = 0;
    while i < entries.len()
        invariant
            i <= entries@.len(),
            obj_get(entries@, key@) == obj_get_from(entries@, key@, i as int),
        decreases entries@.len() - i,
    {
        if bytes_eq(&entries[i].0, key) {
            return Some(&entries[i].1);
        }
        i += 1;
    }
    None
}

fn arg_type_of_tag(tag: &Vec<u8>) -> (r: Option<ArgType>)
    ensures
        r == spec_arg_type_of_tag(tag@),
{
    let n = tag.len();
    if n == 2 {
        let b0 = tag[0];
        let b1 = tag[1];
        if b0 == 117 && b1 == 56 {
            proof {
                assert(tag@ =~= seq![117u8, 56u8]);
            }
            return Some(ArgType::U8);
        }
        if b0 == 105 && b1 == 56 {
            proof {
                assert(tag@ =~= seq![105u8, 56u8]);
            }
            return Some(ArgType::I8);
        }
        return None;
    }
    if n == 3 {
        let b0 = tag[0];
        let b1 = tag[1];
        let b2 = tag[2];
        if b0 == 117 && b1 == 49 && b2 == 54 {
            proof {
                assert(tag@ =~= seq![117u8, 49u8, 54u8]);
            }
            return Some(ArgType::U16);
        }
        if b0 == 117 && b1 == 51 && b2 == 50 {
            proof {
                assert(tag@ =~= seq![117u8, 51u8, 50u8]);
            }
            return Some(ArgType::U32);
        }
        if b0 == 117 && b1 == 54 && b2 == 52 {
            proof {
                assert(tag@ =~= seq![117u8, 54u8, 52u8]);
            }
            return Some(ArgType::U64);
        }
        if b0 == 105 && b1 == 49 && b2 == 54 {
            proof {
                assert(tag@ =~= seq![105u8, 49u8, 54u8]);
            }
            return Some(ArgType::I16);
        }
        if b0 == 105 && b1 == 51 && b2 == 50 {
            proof {
                assert(tag@ =~= seq![105u8, 51u8, 50u8]);
            }
            return Some(ArgType::I32);
        }
        if b0 == 105 && b1 == 54 && b2 == 52 {
            proof {
                assert(tag@ =~= seq![105u8, 54u8, 52u8]);
            }
            return Some(ArgType::I64);
        }
        return None;
    }
    if n == 4 {
        if tag[0] == 98 && tag[1] == 111 && tag[2] == 111 && tag[3] == 108 {
            proof {
                assert(tag@ =~= seq![98u8, 111u8, 111u8, 108u8]);
            }
            return Some(ArgType::Bool);
        }
        return None;
    }
    if n == 6 {
        if tag[0] == 112 && tag[1] == 117 && tag[2] == 98 && tag[3] == 107 && tag[4] == 101
            && tag[5] == 121 {
            proof {
                assert(tag@ =~= seq![112u8, 117u8, 98u8, 107u8, 101u8, 121u8]);
            }
            return Some(ArgType::Pubkey);
        }
        if tag[0] == 115 && tag[1] == 116 && tag[2] == 114 && tag[3] == 105 && tag[4] == 110
            && tag[5] == 103 {
            proof {
                assert(tag@ =~= seq![115u8, 116u8, 114u8, 105u8, 110u8, 103u8]);
            }
            return Some(ArgType::Str);
        }
        return None;
    }
    None
}

fn account_from_json(j: &Json) -> (r: Result<AccountSpec, SchemaError>)
    ensures
        r is Ok <==> valid_account_entry(*j),
        r is Ok ==> account_matches(*j, r->Ok_0),
        r is Err ==> r->Err_0 is MissingField,
        r matches Err(SchemaError::MissingField(f)) ==> is_schema_key(f@),
{
    let entries = match j {
        Json::Obj(e) => e,
        _ => {
            return Err(SchemaError::MissingField(key_name_vec()));
        },
    };
    proof {
        assert(j->Obj_0@ == entries@);
    }
    let name = match obj_find(entries, &key_name_vec()) {
        Some(Json::Text(t)) => copy_bytes(t),
        _ => {
            return Err(SchemaError::MissingField(key_name_vec()));
        },
    };
    let mutable = match obj_find(entries, &key_mutable_vec()) {
        Some(Json::Bool(b)) => *b,
        _ => {
            return Err(SchemaError::MissingField(key_mutable_vec()));
        },
    };
    let signer = match obj_find(entries, &key_signer_vec()) {
        Some(Json::Bool(b)) => *b,
        _ => {
            return Err(SchemaError::MissingField(key_signer_vec()));
        },
    };
    Ok(AccountSpec { name, mutable, signer })
}

/// On an unrecognized tag the error carries that tag.
fn arg_from_json(j: &Json) -> (r: Result<ArgSpec, SchemaError>)
    ensures
        r is Ok <==> valid_arg_entry(*j),
        r is Ok ==> arg_matches(*j, r->Ok_0),
        r is Err ==> r->Err_0 is MissingField || r->Err_0 is UnknownType,
        r matches Err(SchemaError::UnknownType(t)) ==> spec_arg_type_of_tag(t@) is None,
        r matches Err(SchemaError::MissingField(f)) ==> is_schema_key(f@),
{
    let entries = match j {
        Json::Obj(e) => e,
        _ => {
            return Err(SchemaError::MissingField(key_name_vec()));
        },
    };
    proof {
        assert(j->Obj_0@ == entries@);
    }
    let name = match obj_find(entries, &key_name_vec()) {
        Some(Json::Text(t)) => copy_bytes(t),
        _ => {
            return Err(SchemaError::MissingField(key_name_vec()));
        },
    };
    let tag = match obj_find(entries, &key_type_vec()) {
        Some(Json::Text(t)) => copy_bytes(t),
        _ => {
            return Err(SchemaError::MissingField(key_type_vec()));
        },
    };
    let ty = match arg_type_of_tag(&tag) {
        Some(t) => t,
        None => {
            return Err(SchemaError::UnknownType(tag));
        },
    };
    Ok(ArgSpec { name, ty })
}

fn accounts_from_json(items: &Vec<Json>) -> (r: Result<Vec<AccountSpec>, SchemaError>)
    ensures
        r is Ok <==> forall|k: int|
            0 <= k < items@.len() ==> valid_account_entry(#[trigger] items@[k]),
        r is Ok ==> {
            &&& r->Ok_0@.len() == items@.len()
            &&& forall|k: int|
                0 <= k < items@.len() ==> account_matches(items@[k], #[trigger] r->Ok_0@[k])
        },
        r is Err ==> r->Err_0 is MissingField,
        r matches Err(SchemaError::MissingField(f)) ==> is_schema_key(f@),
{
    let mut out: Vec<AccountSpec> = Vec::new();
    let mut i: usize = 0;
    while i < items.len()
        invariant
            i <= items@.len(),
            out@.len() == i,
            forall|k: int| 0 <= k < i ==> account_matches(items@[k], #[trigger] out@[k]),
        decreases items@.len() - i,
    {
        match account_from_json(&items[i]) {
            Ok(a) => out.push(a),
            Err(e) => {
                proof {
                    assert(!valid_account_entry(items@[i as int]));
                }
                return Err(e);
            },
        }
        i += 1;
    }
    proof {
        assert forall|k: int| 0 <= k < items@.len() implies valid_account_entry(
            #[trigger] items@[k],
        ) by {
            assert(account_matches(items@[k], out@[k]));
        }
    }
    Ok(out)
}

fn args_from_json(items: &Vec<Json>) -> (r: Result<Vec<ArgSpec>, SchemaError>)
    ensures
        r is Ok <==> forall|k: int| 0 <= k < items@.len() ==> valid_arg_entry(#[trigger] items@[k]),
        r is Ok ==> {
            &&& r->Ok_0@.len() == items@.len()
            &&& forall|k: int|
                0 <= k < items@.len() ==> arg_matches(items@[k], #[trigger] r->Ok_0@[k])
        },
        r is Err ==> r->Err_0 is MissingField || r->Err_0 is UnknownType,
        r matches Err(SchemaError::UnknownType(t)) ==> spec_arg_type_of_tag(t@) is None,
        r matches Err(SchemaError::MissingField(f)) ==> is_schema_key(f@),
{
    let mut out: Vec<ArgSpec> = Vec::new();
    let mut i: usize = 0;
    while i < items.len()
        invariant
            i <= items@.len(),
            out@.len() == i,
            forall|k: int| 0 <= k < i ==> arg_matches(items@[k], #[trigger] out@[k]),
        decreases items@.len() - i,
    {
        match arg_from_json(&items[i]) {
            Ok(a) => out.push(a),
            Err(e) => {
                proof {
                    assert(!valid_arg_entry(items@[i as int]));
                }
                return Err(e);
            },
        }
        i += 1;
    }
    proof {
        assert forall|k: int| 0 <= k < items@.len() implies valid_arg_entry(
            #[trigger] items@[k],
        ) by {
            assert(arg_matches(items@[k], out@[k]));
        }
    }
    Ok(out)
}

fn instruction_from_json(j: &Json) -> (r: Result<InstructionSpec, SchemaError>)
    ensures
        r is Ok <==> valid_instruction_entry(*j),
        r is Ok ==> instruction_matches(*j, r->Ok_0),
        r is Err ==> r->Err_0 is MissingField || r->Err_0 is UnknownType,
        r matches Err(SchemaError::UnknownType(t)) ==> spec_arg_type_of_tag(t@) is None,
        r matches Err(SchemaError::MissingField(f)) ==> is_schema_key(f@),
{
    let entries = match j {
        Json::Obj(e) => e,
        _ => {
            return Err(SchemaError::MissingField(key_name_vec()));
        },
    };
    proof {
        assert(j->Obj_0@ == entries@);
    }
    let name = match obj_find(entries, &key_name_vec()) {
        Some(Json::Text(t)) => copy_bytes(t),
        _ => {
            return Err(SchemaError::MissingField(key_name_vec()));
        },
    };
    if name.len() == 0 {
        return Err(SchemaError::MissingField(key_name_vec()));
    }
    let account_items = match obj_find(entries, &key_accounts_vec()) {
        Some(Json::Arr(items)) => items,
        _ => {
            return Err(SchemaError::MissingField(key_accounts_vec()));
        },
    };
    proof {
        assert(obj_get(entries@, key_accounts())->Some_0->Arr_0@ == account_items@);
    }
    let arg_items = match obj_find(entries, &key_args_vec()) {
        Some(Json::Arr(items)) => items,
        _ => {
            return Err(SchemaError::MissingField(key_args_vec()));
        },
    };
    proof {
        assert(obj_get(entries@, key_args())->Some_0->Arr_0@ == arg_items@);
    }
    let accounts = match accounts_from_json(account_items) {
        Ok(a) => a,
        Err(e) => {
            return Err(e);
        },
    };
    let args = match args_from_json(arg_items) {
        Ok(a) => a,
        Err(e) => {
            return Err(e);
        },
    };
    Ok(InstructionSpec { name, accounts, args })
}

/// The first pair of positions carrying the same instruction name, if any.
fn find_duplicate_name(instrs: &Vec<InstructionSpec>) -> (r: Option<(usize, usize)>)
    ensures
        match r {
            None => forall|k1: int, k2: int|
                0 <= k1 < k2 < instrs@.len() ==> instrs@[k1].name@ != instrs@[k2].name@,
            Some(p) => p.0 < p.1 < instrs@.len() && instrs@[p.0 as int].name@ == instrs@[
                p.1 as int
            ].name@,
        },
{
    let n = instrs.len();
    let mut a: usize = 0;
    while a < n
        invariant
            n == instrs@.len(),
            a <= n,
            forall|k1: int, k2: int|
                0 <= k1 < k2 < instrs@.len() && k1 < a ==> instrs@[k1].name@ != instrs@[k2].name@,
        decreases n - a,
    {
        let mut b: usize = a + 1;
        while b < n
            invariant
                n == instrs@.len(),
                a < n,
                a < b <= n,
                forall|k2: int| a < k2 < b ==> instrs@[a as int].name@ != instrs@[k2].name@,
            decreases n - b,
        {
            if bytes_eq(&instrs[a].name, &instrs[b].name) {
                return Some((a, b));
            }
            b += 1;
        }
        a += 1;
    }
    None
}

/// Builds a schema from a parsed document. Succeeds exactly on a valid
/// schema document; the schema then mirrors the document's instructions in
/// order, and is well formed. An unrecognized type tag is reported with that
/// tag; a duplicated instruction name is reported with that name.
pub fn schema_from_json(j: &Json) -> (r: Result<Schema, SchemaError>)
    ensures
        r is Ok <==> valid_document(*j),
        r is Ok ==> schema_matches(*j, r->Ok_0) && wf_schema(r->Ok_0),
        !(r matches Err(SchemaError::MalformedDocument)),
        r matches Err(SchemaError::UnknownType(t)) ==> spec_arg_type_of_tag(t@) is None,
        r matches Err(SchemaError::MissingField(f)) ==> is_schema_key(f@),
        r matches Err(SchemaError::DuplicateInstructionName(n)) ==> has_duplicate_name(*j, n@),
{
    let entries = match j {
        Json::Obj(e) => e,
        _ => {
            return Err(SchemaError::MissingField(key_instructions_vec()));
        },
    };
    proof {
        assert(j->Obj_0@ == entries@);
    }
    let items = match obj_find(entries, &key_instructions_vec()) {
        Some(Json::Arr(items)) => items,
        _ => {
            return Err(SchemaError::MissingField(key_instructions_vec()));
        },
    };
    proof {
        assert(obj_get(entries@, key_instructions())->Some_0->Arr_0@ == items@);
    }
    let instructions = match instructions_from_json(items) {
        Ok(v) => v,
        Err(e) => {
            return Err(e);
        },
    };
    match find_duplicate_name(&instructions) {
        Some((a, b)) => {
            proof {
                assert(instruction_matches(items@[a as int], instructions@[a as int]));
                assert(instruction_matches(items@[b as int], instructions@[b as int]));
                assert(instr_name_of(#[trigger] instr_entries_of(*j)[a as int])
                    == instructions@[a as int].name@);
                assert(instr_name_of(#[trigger] instr_entries_of(*j)[b as int])
                    == instructions@[a as int].name@);
                assert(has_duplicate_name(*j, instructions@[a as int].name@));
                assert(!valid_document(*j)) by {
                    if valid_document(*j) {
                        assert(instr_name_of(
                            obj_get(j->Obj_0@, key_instructions())->Some_0->Arr_0@[a as int],
                        ) != instr_name_of(
                            obj_get(j->Obj_0@, key_instructions())->Some_0->Arr_0@[b as int],
                        ));
                    }
                }
            }
            Err(SchemaError::DuplicateInstructionName(copy_bytes(&instructions[a].name)))
        },
        None => {
            proof {
                assert forall|k: int|
                    0 <= k < obj_get(j->Obj_0@, key_instructions())->Some_0->Arr_0@.len()
                        implies valid_instruction_entry(
                    #[trigger] obj_get(j->Obj_0@, key_instructions())->Some_0->Arr_0@[k],
                ) by {
                    assert(obj_get(j->Obj_0@, key_instructions())->Some_0->Arr_0@[k]
                        == items@[k]);
                    assert(instruction_matches(items@[k], instructions@[k]));
                }
                assert forall|k1: int, k2: int|
                    0 <= k1 < k2 < obj_get(j->Obj_0@, key_instructions())->Some_0->Arr_0@.len()
                        implies instr_name_of(
                    obj_get(j->Obj_0@, key_instructions())->Some_0->Arr_0@[k1],
                ) != instr_name_of(
                    obj_get(j->Obj_0@, key_instructions())->Some_0->Arr_0@[k2],
                ) by {
                    assert(instruction_matches(items@[k1], instructions@[k1]));
                    assert(instruction_matches(items@[k2], instructions@[k2]));
                    assert(instructions@[k1].name@ != instructions@[k2].name@);
                }
                assert(valid_document(*j));
                assert forall|k: int| 0 <= k < instructions@.len() implies instruction_matches(
                    obj_get(j->Obj_0@, key_instructions())->Some_0->Arr_0@[k],
                    #[trigger] instructions@[k],
                ) by {
                    assert(obj_get(j->Obj_0@, key_instructions())->Some_0->Arr_0@[k]
                        == items@[k]);
                    assert(instruction_matches(items@[k], instructions@[k]));
                }
                assert(schema_matches(*j, Schema { instructions }));
                assert forall|k: int| 0 <= k < instructions@.len() implies crate::schema::wf_instruction(
                    #[trigger] instructions@[k],
                ) by {
                    assert(instruction_matches(items@[k], instructions@[k]));
                }
            }
            Ok(Schema { instructions })
        },
    }
}

fn instructions_from_json(items: &Vec<Json>) -> (r: Result<Vec<InstructionSpec>, SchemaError>)
    ensures
        r is Ok <==> forall|k: int|
            0 <= k < items@.len() ==> valid_instruction_entry(#[trigger] items@[k]),
        r is Ok ==> {
            &&& r->Ok_0@.len() == items@.len()
            &&& forall|k: int|
                0 <= k < items@.len() ==> instruction_matches(items@[k], #[trigger] r->Ok_0@[k])
        },
        r is Err ==> r->Err_0 is MissingField || r->Err_0 is UnknownType,
        r matches Err(SchemaError::UnknownType(t)) ==> spec_arg_type_of_tag(t@) is None,
        r matches Err(SchemaError::MissingField(f)) ==> is_schema_key(f@),
{
    let mut out: Vec<InstructionSpec> = Vec::new();
    let mut i: usize = 0;
    while i < items.len()
        invariant
            i <= items@.len(),
            out@.len() == i,
            forall|k: int| 0 <= k < i ==> instruction_matches(items@[k], #[trigger] out@[k]),
        decreases items@.len() - i,
    {
        match instruction_from_json(&items[i]) {
            Ok(ins) => out.push(ins),
            Err(e) => {
                proof {
                    assert(!valid_instruction_entry(items@[i as int]));
                }
                return Err(e);
            },
        }
        i += 1;
    }
    proof {
        assert forall|k: int| 0 <= k < items@.len() implies valid_instruction_entry(
            #[trigger] items@[k],
        ) by {
            assert(instruction_matches(items@[k], out@[k]));
        }
    }
    Ok(out)
}

/// Loads a schema from document text: parse, then validate. Loading succeeds
/// if and only if the text holds a valid schema document; the schema then
/// mirrors that document. A text that holds no tree at all is rejected as
/// malformed; an unrecognized type tag, a missing or mis-shaped field and a
/// duplicated instruction name are each reported with the offending tag,
/// field or name.
pub fn load(doc: &Vec<u8>) -> (r: Result<Schema, SchemaError>)
    ensures
        r is Ok ==> wf_schema(r->Ok_0),
        r is Ok ==> exists|j: Json|
            {
                &&& #[trigger] spec_document_holds(doc@, j)
                &&& valid_document(j)
                &&& schema_matches(j, r->Ok_0)
            },
        (exists|j: Json| #[trigger] spec_document_holds(doc@, j) && valid_document(j)) ==> r is Ok,
        r matches Err(SchemaError::MalformedDocument) ==> !(exists|j: Json|
            #[trigger] spec_document_holds(doc@, j)),
        r matches Err(SchemaError::UnknownType(t)) ==> spec_arg_type_of_tag(t@) is None,
        r matches Err(SchemaError::MissingField(f)) ==> is_schema_key(f@),
        r matches Err(SchemaError::DuplicateInstructionName(n)) ==> exists|j: Json|
            #[trigger] spec_document_holds(doc@, j) && has_duplicate_name(j, n@),
{
    match crate::json::parse_json(doc) {
        None => {
            proof {
                assert forall|j: Json|
                    !(#[trigger] spec_document_holds(doc@, j) && valid_document(j)) by {
                    assert(!spec_document_holds(doc@, j));
                }
            }
            Err(SchemaError::MalformedDocument)
        },
        Some(j) => {
            let r = schema_from_json(&j);
            proof {
                assert(spec_document_holds(doc@, j));
                if r is Ok {
                    assert(spec_document_holds(doc@, j) && valid_document(j) && schema_matches(
                        j,
                        r->Ok_0,
                    ));
                }
                if exists|j0: Json| #[trigger] spec_document_holds(doc@, j0) && valid_document(
                    j0,
                ) {
                    let j0 = choose|j0: Json|
                        #[trigger] spec_document_holds(doc@, j0) && valid_document(j0);
                    let start = spec_skip_ws(doc@, 0);
                    let e1 = choose|end: int|
                        spec_value_end(doc@, start, j0) == Some(end) && 0 <= end <= doc@.len()
                            && spec_skip_ws(doc@, end) == doc@.len();
                    let e2 = choose|end: int|
                        spec_value_end(doc@, start, j) == Some(end) && 0 <= end <= doc@.len()
                            && spec_skip_ws(doc@, end) == doc@.len();
                    lemma_value_unique(doc@, start, j0, j);
                    lemma_valid_document_equiv(j0, j);
                    assert(valid_document(j));
                }
            }
            r
        },
    }
}

} // verus!
