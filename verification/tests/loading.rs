use solana_token_cli::generate::generate;
use solana_token_cli::json::parse_key_bytes;
use solana_token_cli::loader::load;
use solana_token_cli::schema::{ArgType, SchemaError};

fn doc(text: &str) -> Vec<u8> {
    text.as_bytes().to_vec()
}

#[test]
fn test_load_valid_document() {
    let text = r#"
    {
        "instructions": [
            {
                "name": "initialize",
                "accounts": [
                    { "name": "mint", "mutable": true, "signer": true },
                    { "name": "authority", "mutable": true, "signer": true },
                    { "name": "system_program", "mutable": false, "signer": false }
                ],
                "args": [ { "name": "decimals", "type": "u8" } ]
            },
            {
                "name": "transfer",
                "accounts": [
                    { "name": "from", "mutable": true, "signer": false },
                    { "name": "to", "mutable": true, "signer": false },
                    { "name": "owner", "mutable": false, "signer": true }
                ],
                "args": [ { "name": "amount", "type": "u64" } ]
            }
        ]
    }
    "#;
    let schema = load(&doc(text)).unwrap();

    assert_eq!(schema.instructions.len(), 2);
    let init = &schema.instructions[0];
    assert_eq!(init.name, b"initialize".to_vec());
    assert_eq!(init.accounts.len(), 3);
    assert_eq!(init.accounts[0].name, b"mint".to_vec());
    assert!(init.accounts[0].mutable);
    assert!(init.accounts[0].signer);
    assert!(!init.accounts[2].mutable);
    assert!(!init.accounts[2].signer);
    assert_eq!(init.args.len(), 1);
    assert_eq!(init.args[0].name, b"decimals".to_vec());
    assert_eq!(init.args[0].ty, ArgType::U8);

    let transfer = &schema.instructions[1];
    assert_eq!(transfer.name, b"transfer".to_vec());
    assert_eq!(transfer.args[0].ty, ArgType::U64);
}

#[test]
fn test_load_empty_instruction_list() {
    let schema = load(&doc(r#"{ "instructions": [] }"#)).unwrap();
    assert_eq!(schema.instructions.len(), 0);
}

#[test]
fn test_load_malformed_document() {
    assert!(matches!(load(&doc("not a document")), Err(SchemaError::MalformedDocument)));
    assert!(matches!(load(&doc(r#"{ "instructions": ["#)), Err(SchemaError::MalformedDocument)));
    assert!(matches!(load(&doc(r#"{} trailing"#)), Err(SchemaError::MalformedDocument)));
    assert!(matches!(load(&doc("")), Err(SchemaError::MalformedDocument)));
}

#[test]
fn test_load_missing_field() {
    let text = r#"{ "instructions": [ { "accounts": [], "args": [] } ] }"#;
    match load(&doc(text)) {
        Err(SchemaError::MissingField(f)) => assert_eq!(f, b"name".to_vec()),
        other => panic!("expected a missing-field error, got {:?}", other.is_ok()),
    }
    let text2 = r#"{ "instructions": [ { "name": "x", "args": [] } ] }"#;
    match load(&doc(text2)) {
        Err(SchemaError::MissingField(f)) => assert_eq!(f, b"accounts".to_vec()),
        other => panic!("expected a missing-field error, got {:?}", other.is_ok()),
    }
}

#[test]
fn test_load_empty_name_rejected() {
    let text = r#"{ "instructions": [ { "name": "", "accounts": [], "args": [] } ] }"#;
    assert!(matches!(load(&doc(text)), Err(SchemaError::MissingField(_))));
}

#[test]
fn test_load_unknown_type() {
    let text = r#"
    { "instructions": [
        { "name": "x", "accounts": [],
          "args": [ { "name": "rate", "type": "decimal" } ] }
    ] }
    "#;
    match load(&doc(text)) {
        Err(SchemaError::UnknownType(t)) => assert_eq!(t, b"decimal".to_vec()),
        _ => panic!("expected an unknown-type error"),
    }
}

#[test]
fn test_load_duplicate_instruction_name() {
    let text = r#"
    { "instructions": [
        { "name": "mint_tokens", "accounts": [], "args": [] },
        { "name": "mint_tokens", "accounts": [], "args": [] }
    ] }
    "#;
    match load(&doc(text)) {
        Err(SchemaError::DuplicateInstructionName(n)) => assert_eq!(n, b"mint_tokens".to_vec()),
        _ => panic!("expected a duplicate-name error"),
    }
}

#[test]
fn test_load_all_argument_types() {
    let text = r#"
    { "instructions": [
        { "name": "x", "accounts": [],
          "args": [
            { "name": "a", "type": "u8" }, { "name": "b", "type": "u16" },
            { "name": "c", "type": "u32" }, { "name": "d", "type": "u64" },
            { "name": "e", "type": "i8" }, { "name": "f", "type": "i16" },
            { "name": "g", "type": "i32" }, { "name": "h", "type": "i64" },
            { "name": "i", "type": "bool" }, { "name": "j", "type": "pubkey" },
            { "name": "k", "type": "string" }
          ] }
    ] }
    "#;
    let schema = load(&doc(text)).unwrap();
    let tys: Vec<ArgType> = schema.instructions[0].args.iter().map(|a| a.ty).collect();
    assert_eq!(
        tys,
        vec![
            ArgType::U8,
            ArgType::U16,
            ArgType::U32,
            ArgType::U64,
            ArgType::I8,
            ArgType::I16,
            ArgType::I32,
            ArgType::I64,
            ArgType::Bool,
            ArgType::Pubkey,
            ArgType::Str,
        ]
    );
}

#[test]
fn test_load_then_generate_matches_reference_tags() {
    let text = r#"
    { "instructions": [
        { "name": "initialize",
          "accounts": [ { "name": "mint", "mutable": true, "signer": true } ],
          "args": [ { "name": "decimals", "type": "u8" } ] },
        { "name": "burn", "accounts": [], "args": [ { "name": "amount", "type": "u64" } ] }
    ] }
    "#;
    let schema = load(&doc(text)).unwrap();
    let bindings = generate(&schema).unwrap();
    assert_eq!(bindings[0].discriminator, vec![175, 175, 109, 31, 13, 152, 155, 237]);
    assert_eq!(bindings[1].discriminator, vec![116, 110, 29, 56, 107, 219, 42, 93]);
}

#[test]
fn test_parse_key_bytes() {
    assert_eq!(parse_key_bytes(&doc("[1, 2, 255, 0]")), Some(vec![1, 2, 255, 0]));
    assert_eq!(parse_key_bytes(&doc(" [ ] ")), Some(vec![]));
    assert_eq!(parse_key_bytes(&doc("[256]")), None);
    assert_eq!(parse_key_bytes(&doc("[1, true]")), None);
    assert_eq!(parse_key_bytes(&doc("{}")), None);
    assert_eq!(parse_key_bytes(&doc("[1, 2")), None);
}
