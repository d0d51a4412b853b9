use solana_token_cli::discriminator::discriminator_for;
use solana_token_cli::encode::{check_args, encode, to_metas, ArgValue};
use solana_token_cli::schema::{AccountSpec, ArgSpec, ArgType};

fn disc() -> Vec<u8> {
    vec![1, 2, 3, 4, 5, 6, 7, 8]
}

fn tail(data: &[u8]) -> &[u8] {
    &data[8..]
}

#[test]
fn test_encode_unsigned_little_endian() {
    assert_eq!(tail(&encode(&disc(), &vec![ArgValue::U8(0x12)])), &[0x12]);
    assert_eq!(tail(&encode(&disc(), &vec![ArgValue::U16(0x0102)])), &[0x02, 0x01]);
    assert_eq!(
        tail(&encode(&disc(), &vec![ArgValue::U32(0x01020304)])),
        &[0x04, 0x03, 0x02, 0x01]
    );
    assert_eq!(
        tail(&encode(&disc(), &vec![ArgValue::U64(0x0102030405060708)])),
        &[0x08, 0x07, 0x06, 0x05, 0x04, 0x03, 0x02, 0x01]
    );
}

#[test]
fn test_encode_signed_twos_complement() {
    assert_eq!(tail(&encode(&disc(), &vec![ArgValue::I8(-1)])), &[0xFF]);
    assert_eq!(tail(&encode(&disc(), &vec![ArgValue::I16(-2)])), &[0xFE, 0xFF]);
    assert_eq!(tail(&encode(&disc(), &vec![ArgValue::I32(-2)])), &[0xFE, 0xFF, 0xFF, 0xFF]);
    assert_eq!(
        tail(&encode(&disc(), &vec![ArgValue::I64(-2)])),
        &[0xFE, 0xFF, 0xFF, 0xFF, 0xFF, 0xFF, 0xFF, 0xFF]
    );
    assert_eq!(tail(&encode(&disc(), &vec![ArgValue::I64(5)])), &[5, 0, 0, 0, 0, 0, 0, 0]);
}

#[test]
fn test_encode_bool_and_pubkey() {
    assert_eq!(tail(&encode(&disc(), &vec![ArgValue::Bool(true)])), &[1]);
    assert_eq!(tail(&encode(&disc(), &vec![ArgValue::Bool(false)])), &[0]);

    let key = vec![7u8; 32];
    let data = encode(&disc(), &vec![ArgValue::Pubkey(key.clone())]);
    assert_eq!(data.len(), 40);
    assert_eq!(tail(&data), key.as_slice());
}

#[test]
fn test_encode_string_with_length_prefix() {
    let data = encode(&disc(), &vec![ArgValue::Str(b"abc".to_vec())]);
    assert_eq!(tail(&data), &[3, 0, 0, 0, 97, 98, 99]);

    let empty = encode(&disc(), &vec![ArgValue::Str(vec![])]);
    assert_eq!(tail(&empty), &[0, 0, 0, 0]);
}

#[test]
fn test_encode_fields_in_declared_order() {
    let data = encode(&disc(), &vec![ArgValue::U8(9), ArgValue::U16(0x0102), ArgValue::Bool(true)]);
    assert_eq!(&data[0..8], disc().as_slice());
    assert_eq!(tail(&data), &[9, 0x02, 0x01, 1]);
}

#[test]
fn test_check_args() {
    let specs = vec![
        ArgSpec { name: b"decimals".to_vec(), ty: ArgType::U8 },
        ArgSpec { name: b"amount".to_vec(), ty: ArgType::U64 },
    ];
    assert!(check_args(&vec![ArgValue::U8(9), ArgValue::U64(10)], &specs));
    assert!(!check_args(&vec![ArgValue::U64(10), ArgValue::U8(9)], &specs));
    assert!(!check_args(&vec![ArgValue::U8(9)], &specs));

    let key_spec = vec![ArgSpec { name: b"target".to_vec(), ty: ArgType::Pubkey }];
    assert!(check_args(&vec![ArgValue::Pubkey(vec![0u8; 32])], &key_spec));
    assert!(!check_args(&vec![ArgValue::Pubkey(vec![0u8; 31])], &key_spec));
}

#[test]
fn test_to_metas_keeps_order_and_duplicates() {
    let accounts = vec![
        AccountSpec { name: b"from".to_vec(), mutable: true, signer: false },
        AccountSpec { name: b"to".to_vec(), mutable: true, signer: false },
        AccountSpec { name: b"owner".to_vec(), mutable: false, signer: true },
    ];
    let same = vec![9u8; 32];
    let addresses = vec![same.clone(), same.clone(), vec![1u8; 32]];
    let metas = to_metas(&accounts, &addresses);

    assert_eq!(metas.len(), 3);
    assert_eq!(metas[0].address, same);
    assert_eq!(metas[1].address, same);
    assert_eq!(metas[2].address, vec![1u8; 32]);
    assert!(metas[0].writable && !metas[0].signer);
    assert!(metas[1].writable && !metas[1].signer);
    assert!(!metas[2].writable && metas[2].signer);
}

#[test]
fn test_discriminator_is_deterministic_and_not_input() {
    let name = b"initialize".to_vec();
    let a = discriminator_for(&name);
    let b = discriminator_for(&name);
    assert_eq!(a, b);
    assert_eq!(a.len(), 8);
    assert_ne!(a, name[0..8].to_vec());
    assert_ne!(discriminator_for(&b"transfer".to_vec()), a);
}
