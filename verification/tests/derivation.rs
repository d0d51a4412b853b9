use solana_token_cli::derive::derive_token_account;

fn addr(fill: u8) -> Vec<u8> {
    vec![fill; 32]
}

#[test]
fn test_derive_is_deterministic() {
    let tag = b"token".to_vec();
    let seeds = vec![addr(1), addr(2)];
    let program = addr(3);

    let first = solana_token_cli::derive::derive(&tag, &seeds, &program).unwrap();
    let second = solana_token_cli::derive::derive(&tag, &seeds, &program).unwrap();

    assert_eq!(first.address, second.address);
    assert_eq!(first.bump, second.bump);
    assert_eq!(first.address.len(), 32);
}

#[test]
fn test_derive_differs_on_owner_and_mint() {
    let tag = b"token".to_vec();
    let program = addr(3);

    let base = solana_token_cli::derive::derive(&tag, &vec![addr(1), addr(2)], &program).unwrap();
    let other_owner = solana_token_cli::derive::derive(&tag, &vec![addr(4), addr(2)], &program).unwrap();
    let other_mint = solana_token_cli::derive::derive(&tag, &vec![addr(1), addr(5)], &program).unwrap();

    assert_ne!(base.address, other_owner.address);
    assert_ne!(base.address, other_mint.address);
}

#[test]
fn test_derive_differs_on_program() {
    let tag = b"token".to_vec();
    let seeds = vec![addr(1), addr(2)];

    let a = solana_token_cli::derive::derive(&tag, &seeds, &addr(3)).unwrap();
    let b = solana_token_cli::derive::derive(&tag, &seeds, &addr(6)).unwrap();

    assert_ne!(a.address, b.address);
}

#[test]
fn test_derive_token_account_matches_plain_derive() {
    let owner = addr(10);
    let mint = addr(11);
    let program = addr(12);

    let direct = solana_token_cli::derive::derive(&b"token".to_vec(), &vec![owner.clone(), mint.clone()], &program).unwrap();
    let named = derive_token_account(&owner, &mint, &program).unwrap();

    assert_eq!(direct.address, named.address);
    assert_eq!(direct.bump, named.bump);
}

#[test]
fn test_derive_succeeds_across_seed_sets() {
    let tag = b"token".to_vec();
    let program = addr(200);
    for fill in 0..32u8 {
        let d = solana_token_cli::derive::derive(&tag, &vec![addr(fill), addr(fill.wrapping_add(1))], &program).unwrap();
        assert_eq!(d.address.len(), 32);
    }
}
