use solana_token_cli::encode::ArgValue;
use solana_token_cli::generate::{generate, GeneratedBinding, GenerationError};
use solana_token_cli::schema::{AccountSpec, ArgSpec, ArgType, InstructionSpec, Schema};

fn acc(name: &str, mutable: bool, signer: bool) -> AccountSpec {
    AccountSpec { name: name.as_bytes().to_vec(), mutable, signer }
}

fn arg(name: &str, ty: ArgType) -> ArgSpec {
    ArgSpec { name: name.as_bytes().to_vec(), ty }
}

fn instr(name: &str, accounts: Vec<AccountSpec>, args: Vec<ArgSpec>) -> InstructionSpec {
    InstructionSpec { name: name.as_bytes().to_vec(), accounts, args }
}

/// The token program's schema: five instructions with their declared
/// accounts and arguments.
fn reference_schema() -> Schema {
    Schema {
        instructions: vec![
            instr(
                "initialize",
                vec![
                    acc("mint", true, true),
                    acc("authority", true, true),
                    acc("system_program", false, false),
                ],
                vec![arg("decimals", ArgType::U8)],
            ),
            instr(
                "create_token_account",
                vec![
                    acc("mint", true, false),
                    acc("token_account", true, false),
                    acc("owner", false, false),
                    acc("payer", true, true),
                    acc("system_program", false, false),
                ],
                vec![],
            ),
            instr(
                "mint_tokens",
                vec![
                    acc("mint", true, false),
                    acc("token_account", true, false),
                    acc("authority", true, true),
                ],
                vec![arg("amount", ArgType::U64)],
            ),
            instr(
                "transfer",
                vec![acc("from", true, false), acc("to", true, false), acc("owner", false, true)],
                vec![arg("amount", ArgType::U64)],
            ),
            instr(
                "burn",
                vec![
                    acc("mint", true, false),
                    acc("token_account", true, false),
                    acc("owner", false, true),
                ],
                vec![arg("amount", ArgType::U64)],
            ),
        ],
    }
}

fn reference_bindings() -> Vec<GeneratedBinding> {
    generate(&reference_schema()).unwrap()
}

fn binding_named<'a>(bindings: &'a [GeneratedBinding], name: &str) -> &'a GeneratedBinding {
    bindings.iter().find(|b| b.name.as_slice() == name.as_bytes()).unwrap()
}

fn addr(fill: u8) -> Vec<u8> {
    vec![fill; 32]
}

#[test]
fn test_initialize_module_exists() {
    let bindings = reference_bindings();
    let init = binding_named(&bindings, "initialize");

    assert_eq!(init.discriminator, vec![175, 175, 109, 31, 13, 152, 155, 237]);

    let args = vec![ArgValue::U8(9)];
    let _data = init.encode(&args);
}

#[test]
fn test_initialize_accounts() {
    let bindings = reference_bindings();
    let init = binding_named(&bindings, "initialize");

    let mint = addr(1);
    let authority = addr(2);
    let system_program = addr(3);

    let metas = init.to_metas(&vec![mint.clone(), authority.clone(), system_program.clone()]);

    assert_eq!(metas.len(), 3);
    assert_eq!(metas[0].address, mint);
    assert_eq!(metas[1].address, authority);
    assert_eq!(metas[2].address, system_program);

    assert!(metas[0].writable);
    assert!(metas[0].signer);
    assert!(metas[1].writable);
    assert!(metas[1].signer);
    assert!(!metas[2].writable);
    assert!(!metas[2].signer);
}

#[test]
fn test_create_token_account_module() {
    let bindings = reference_bindings();
    let create = binding_named(&bindings, "create_token_account");

    assert_eq!(create.discriminator, vec![147, 241, 123, 100, 244, 132, 174, 118]);

    let _data = create.encode(&vec![]);
}

#[test]
fn test_mint_tokens_module() {
    let bindings = reference_bindings();
    let mint = binding_named(&bindings, "mint_tokens");

    assert_eq!(mint.discriminator, vec![59, 132, 24, 246, 122, 39, 8, 243]);

    let args = vec![ArgValue::U64(1000)];
    match &args[0] {
        ArgValue::U64(amount) => assert_eq!(*amount, 1000),
        _ => panic!("amount should be a u64 value"),
    }

    let _data = mint.encode(&args);
}

#[test]
fn test_transfer_module() {
    let bindings = reference_bindings();
    let transfer = binding_named(&bindings, "transfer");

    assert_eq!(transfer.discriminator, vec![163, 52, 200, 231, 140, 3, 69, 186]);

    let args = vec![ArgValue::U64(500)];
    match &args[0] {
        ArgValue::U64(amount) => assert_eq!(*amount, 500),
        _ => panic!("amount should be a u64 value"),
    }
}

#[test]
fn test_burn_module() {
    let bindings = reference_bindings();
    let burn = binding_named(&bindings, "burn");

    assert_eq!(burn.discriminator, vec![116, 110, 29, 56, 107, 219, 42, 93]);

    let args = vec![ArgValue::U64(250)];
    match &args[0] {
        ArgValue::U64(amount) => assert_eq!(*amount, 250),
        _ => panic!("amount should be a u64 value"),
    }
}

#[test]
fn test_all_instructions_have_unique_discriminators() {
    let bindings = reference_bindings();
    let discriminators: Vec<&Vec<u8>> = bindings.iter().map(|b| &b.discriminator).collect();

    for i in 0..discriminators.len() {
        for j in (i + 1)..discriminators.len() {
            assert_ne!(
                discriminators[i], discriminators[j],
                "Discriminators at indices {} and {} are not unique",
                i, j
            );
        }
    }
}

#[test]
fn test_discriminators_are_8_bytes() {
    let bindings = reference_bindings();
    assert_eq!(binding_named(&bindings, "initialize").discriminator.len(), 8);
    assert_eq!(binding_named(&bindings, "create_token_account").discriminator.len(), 8);
    assert_eq!(binding_named(&bindings, "mint_tokens").discriminator.len(), 8);
    assert_eq!(binding_named(&bindings, "transfer").discriminator.len(), 8);
    assert_eq!(binding_named(&bindings, "burn").discriminator.len(), 8);
}

#[test]
fn test_instruction_data_serialization() {
    let bindings = reference_bindings();
    let init = binding_named(&bindings, "initialize");

    let data = init.encode(&vec![ArgValue::U8(9)]);

    assert!(data.len() >= 9, "Serialized data should be at least 9 bytes");
    assert_eq!(&data[0..8], &init.discriminator[..]);
    assert_eq!(data[8], 9);
}

#[test]
fn test_generation_is_deterministic() {
    let first = reference_bindings();
    let second = reference_bindings();

    assert_eq!(first.len(), second.len());
    for (a, b) in first.iter().zip(second.iter()) {
        assert_eq!(a.name, b.name);
        assert_eq!(a.discriminator, b.discriminator);
        assert_eq!(a.accounts.len(), b.accounts.len());
        assert_eq!(a.args.len(), b.args.len());
    }
}

#[test]
fn test_generate_rejects_discriminator_collision() {
    // Two instructions with the same name hash to the same tag.
    let schema = Schema {
        instructions: vec![
            instr("initialize", vec![], vec![]),
            instr("initialize", vec![], vec![]),
        ],
    };
    match generate(&schema) {
        Err(GenerationError::DiscriminatorCollision(earlier, later)) => {
            assert_eq!(earlier, b"initialize".to_vec());
            assert_eq!(later, b"initialize".to_vec());
        }
        Ok(_) => panic!("generation should fail on a collision"),
    }
}
