use solana_program::pubkey::Pubkey;
use solana_program::rent::Rent;
use solana_program::system_program;
use token_broker::address::{derive_address, verify_address};
use token_broker::handler::{process, read_mint, read_token_account, Mint, TokenAccount};
use token_broker::relay::relay;
use token_broker::{AccountRef, Address, Broker, BrokerError, Credential, Ledger, Region};

const PROGRAM: [u8; 32] = [1; 32];
const HANDLER: [u8; 32] = [2; 32];
const PAYER: [u8; 32] = [3; 32];
const AUTHORITY: [u8; 32] = [4; 32];
const OTHER_HANDLER: [u8; 32] = [5; 32];
const LOADER: [u8; 32] = [9; 32];
const FUNDS: u64 = 1_000_000_000;

fn addr(b: [u8; 32]) -> Address {
    Address::new(b)
}

fn setup() -> Broker {
    let mut ledger = Ledger::new();
    ledger.put(Region::new(addr(PAYER), addr(system_program::id().to_bytes()), FUNDS, Vec::new(), false));
    ledger.put(Region::new(addr(HANDLER), addr(LOADER), 1, vec![0xaa], true));
    ledger.put(Region::new(addr(OTHER_HANDLER), addr(LOADER), 1, vec![0xbb], true));
    let mut broker = Broker::new(addr(PROGRAM), ledger);
    broker.register_handler(&addr(HANDLER), 56, 49).unwrap();
    broker.register_handler(&addr(OTHER_HANDLER), 56, 49).unwrap();
    broker
}

fn mint_address(nonce: u64) -> Address {
    derive_address(&b"mint".to_vec(), &vec![nonce.to_le_bytes().to_vec()], &addr(PROGRAM)).unwrap().0
}

fn token_address(nonce: u64, authority: [u8; 32]) -> Address {
    derive_address(&b"token".to_vec(), &vec![nonce.to_le_bytes().to_vec(), authority.to_vec()], &addr(PROGRAM))
        .unwrap()
        .0
}

fn mint_payload(authority: [u8; 32], decimals: u8) -> Vec<u8> {
    let mut p = authority.to_vec();
    p.push(decimals);
    p
}

fn lamports(b: &Broker, a: [u8; 32]) -> u64 {
    b.ledger.get(&addr(a)).map(|r| r.lamports).unwrap_or(0)
}

fn data(b: &Broker, a: &Address) -> Vec<u8> {
    b.ledger.get(a).unwrap().data.clone()
}

fn u64_at(d: &[u8], at: usize) -> u64 {
    u64::from_le_bytes(d[at..at + 8].try_into().unwrap())
}

/// A mint of `nonce` run through the handler, with a token account of
/// `authority` in it, also run through the handler.
fn mint_with_account(b: &mut Broker, handler: [u8; 32], nonce: u64, authority: [u8; 32]) -> (Address, Address) {
    let mint = mint_address(nonce);
    let call = b.initialize_mint(&addr(handler), &mint, &addr(PAYER), nonce, &mint_payload(authority, 6)).unwrap();
    process(&mut b.ledger, &addr(handler), &call).unwrap();
    let token = token_address(nonce, authority);
    let call = b
        .initialize_token_account(&addr(handler), &token, &addr(PAYER), &addr(authority), nonce, &Vec::new())
        .unwrap();
    process(&mut b.ledger, &addr(handler), &call).unwrap();
    (mint, token)
}

#[test]
fn derivation_verifies_and_bit_flips_do_not() {
    let tag = b"mint".to_vec();
    let keys = vec![7u64.to_le_bytes().to_vec()];
    let (a, bump) = derive_address(&tag, &keys, &addr(PROGRAM)).unwrap();
    assert!(verify_address(&a, &tag, &keys, &addr(PROGRAM), bump));
    for i in 0..32 {
        for k in 0..8 {
            let mut bytes = a.bytes;
            bytes[i] ^= 1u8 << k;
            assert!(!verify_address(&addr(bytes), &tag, &keys, &addr(PROGRAM), bump));
        }
    }
}

#[test]
fn derivation_matches_the_runtime() {
    let seeds: [&[u8]; 2] = [b"token", &3u64.to_le_bytes()];
    let (k, bump) = Pubkey::find_program_address(&seeds, &Pubkey::new_from_array(PROGRAM));
    let (a, b) = derive_address(&b"token".to_vec(), &vec![3u64.to_le_bytes().to_vec()], &addr(PROGRAM)).unwrap();
    assert_eq!(a.bytes, k.to_bytes());
    assert_eq!(b, bump);
}

#[test]
fn verification_rejects_another_bump() {
    let tag = b"mint".to_vec();
    let keys = vec![1u64.to_le_bytes().to_vec()];
    let (a, bump) = derive_address(&tag, &keys, &addr(PROGRAM)).unwrap();
    assert!(!verify_address(&a, &tag, &keys, &addr(PROGRAM), bump.wrapping_sub(1)));
}

#[test]
fn reregistration_keeps_only_latest_sizes() {
    let mut b = setup();
    let first = b.lookup(&addr(HANDLER)).unwrap();
    let rec = b.register_handler(&addr(HANDLER), 100, 200).unwrap();
    let found = b.lookup(&addr(HANDLER)).unwrap();
    assert_eq!(found.token_account_bytes, 100);
    assert_eq!(found.mint_account_bytes, 200);
    assert_eq!(found.pda_bump, first.pda_bump);
    assert_eq!(rec.token_account_bytes, 100);
    assert_eq!(b.registry.records.len(), 2);
}

#[test]
fn registration_needs_program_code() {
    let mut b = setup();
    assert_eq!(b.register_handler(&addr(PAYER), 1, 1).unwrap_err(), BrokerError::NotExecutable);
    assert_eq!(b.register_handler(&addr([77; 32]), 1, 1).unwrap_err(), BrokerError::NotExecutable);
}

#[test]
fn lookup_of_unknown_handler_fails() {
    let b = setup();
    assert_eq!(b.lookup(&addr([77; 32])).unwrap_err(), BrokerError::NotRegistered);
}

#[test]
fn allocating_owned_region_fails_without_payment() {
    let mut b = setup();
    let mint = mint_address(1);
    b.initialize_mint(&addr(HANDLER), &mint, &addr(PAYER), 1, &mint_payload(AUTHORITY, 0)).unwrap();
    let before = lamports(&b, PAYER);
    let err = b.ledger.allocate(&addr(PAYER), &mint, 10, &addr(OTHER_HANDLER)).unwrap_err();
    assert_eq!(err, BrokerError::OwnershipMismatch);
    assert_eq!(lamports(&b, PAYER), before);
    let err = b.ledger.allocate(&addr(PAYER), &addr(HANDLER), 10, &addr(HANDLER)).unwrap_err();
    assert_eq!(err, BrokerError::OwnershipMismatch);
    assert_eq!(lamports(&b, PAYER), before);
}

#[test]
fn allocation_charges_rent_exempt_minimum() {
    let mut b = setup();
    let target = addr([40; 32]);
    let paid = b.ledger.allocate(&addr(PAYER), &target, 49, &addr(HANDLER)).unwrap();
    let expected = Rent::default().minimum_balance(49).max(1);
    assert_eq!(paid, expected);
    assert_eq!(paid, 6960 * (128 + 49));
    assert_eq!(lamports(&b, PAYER), FUNDS - expected);
    let region = b.ledger.get(&target).unwrap();
    assert_eq!(region.owner, addr(HANDLER));
    assert_eq!(region.data, vec![0u8; 49]);
    assert_eq!(region.lamports, expected);
}

#[test]
fn allocation_of_zero_bytes_fails() {
    let mut b = setup();
    let err = b.ledger.allocate(&addr(PAYER), &addr([40; 32]), 0, &addr(HANDLER)).unwrap_err();
    assert_eq!(err, BrokerError::InvalidSize);
}

#[test]
fn allocation_without_funds_fails() {
    let mut b = setup();
    let err = b.ledger.allocate(&addr([41; 32]), &addr([40; 32]), 8, &addr(HANDLER)).unwrap_err();
    assert_eq!(err, BrokerError::InsufficientFunds);
    assert!(b.ledger.get(&addr([40; 32])).is_none());
}

#[test]
fn unallocated_regions_belong_to_system_program() {
    let b = setup();
    let unknown = b.ledger.owner(&addr([40; 32]));
    assert_eq!(unknown.bytes, system_program::id().to_bytes());
    assert_eq!(unknown.bytes, [0u8; 32]);
}

#[test]
fn initialize_mint_builds_tagged_call() {
    let mut b = setup();
    let mint = mint_address(7);
    let payload = mint_payload(AUTHORITY, 9);
    let call = b.initialize_mint(&addr(HANDLER), &mint, &addr(PAYER), 7, &payload).unwrap();
    let mut expected = vec![0xd1, 0x2a, 0xc3, 0x04, 0x81, 0x55, 0xd1, 0x2c];
    expected.extend_from_slice(&payload);
    assert_eq!(call.data, expected);
    assert_eq!(call.program, addr(HANDLER));
    assert_eq!(call.accounts.len(), 1);
    assert_eq!(call.accounts[0].address, mint);
    assert!(!call.accounts[0].is_signer);
    assert!(call.accounts[0].is_writable);
    assert!(matches!(call.credential, Credential::Caller));
    let region = b.ledger.get(&mint).unwrap();
    assert_eq!(region.owner, addr(HANDLER));
    assert_eq!(region.data.len(), 49);
}

#[test]
fn initialize_mint_rejects_declared_address_off_derivation() {
    let mut b = setup();
    let wrong = mint_address(8);
    let err = b.initialize_mint(&addr(HANDLER), &wrong, &addr(PAYER), 7, &Vec::new()).unwrap_err();
    assert_eq!(err, BrokerError::DerivationMismatch);
    assert!(b.ledger.get(&wrong).is_none());
    assert_eq!(lamports(&b, PAYER), FUNDS);
}

#[test]
fn initialize_mint_needs_registered_handler() {
    let mut b = setup();
    let err = b.initialize_mint(&addr([77; 32]), &mint_address(7), &addr(PAYER), 7, &Vec::new()).unwrap_err();
    assert_eq!(err, BrokerError::NotRegistered);
}

#[test]
fn second_initialize_mint_of_nonce_fails() {
    let mut b = setup();
    let mint = mint_address(7);
    b.initialize_mint(&addr(HANDLER), &mint, &addr(PAYER), 7, &mint_payload(AUTHORITY, 6)).unwrap();
    let before = lamports(&b, PAYER);
    let err = b.initialize_mint(&addr(HANDLER), &mint, &addr(PAYER), 7, &mint_payload(AUTHORITY, 6)).unwrap_err();
    assert_eq!(err, BrokerError::OwnershipMismatch);
    assert_eq!(lamports(&b, PAYER), before);
}

#[test]
fn initialize_token_account_builds_tagged_call() {
    let mut b = setup();
    let token = token_address(7, AUTHORITY);
    let call = b
        .initialize_token_account(&addr(HANDLER), &token, &addr(PAYER), &addr(AUTHORITY), 7, &vec![0xee, 0xff])
        .unwrap();
    let mut expected = vec![0x96, 0x55, 0x2c, 0x1c, 0x95, 0x0e, 0xd2, 0x1a];
    expected.extend_from_slice(&AUTHORITY);
    expected.extend_from_slice(&7u64.to_le_bytes());
    expected.extend_from_slice(&[0xee, 0xff]);
    assert_eq!(call.data, expected);
    assert_eq!(call.accounts[0].address, token);
    assert!(matches!(call.credential, Credential::Caller));
    assert_eq!(b.ledger.get(&token).unwrap().data.len(), 56);
}

#[test]
fn mint_flow_adds_exact_amount() {
    let mut b = setup();
    let (mint, token) = mint_with_account(&mut b, HANDLER, 7, AUTHORITY);
    let call = b.mint_to(&addr(HANDLER), &token, &mint, &addr(AUTHORITY), 100).unwrap();
    let mut expected = vec![0xf1, 0x22, 0x30, 0xba, 0x25, 0xb3, 0x7b, 0xc0];
    expected.extend_from_slice(&100u64.to_le_bytes());
    assert_eq!(call.data, expected);
    assert!(matches!(call.credential, Credential::Broker(_)));
    assert!(call.accounts[2].is_signer);
    assert!(call.accounts.iter().all(|a| a.address != addr(AUTHORITY)));
    process(&mut b.ledger, &addr(HANDLER), &call).unwrap();
    let t = data(&b, &token);
    let m = data(&b, &mint);
    assert_eq!(u64_at(&t, 48), 100);
    assert_eq!(u64_at(&m, 40), 100);
    assert_eq!(&t[8..40], &AUTHORITY);
    assert_eq!(u64_at(&t, 40), 7);
    assert_eq!(&m[8..40], &AUTHORITY);
    assert_eq!(m[48], 6);
    let call = b.mint_to(&addr(HANDLER), &token, &mint, &addr(AUTHORITY), 100).unwrap();
    process(&mut b.ledger, &addr(HANDLER), &call).unwrap();
    assert_eq!(u64_at(&data(&b, &token), 48), 200);
    assert_eq!(u64_at(&data(&b, &mint), 40), 200);
}

#[test]
fn mint_to_signer_is_handler_record_address() {
    let mut b = setup();
    let (mint, token) = mint_with_account(&mut b, HANDLER, 7, AUTHORITY);
    let call = b.mint_to(&addr(HANDLER), &token, &mint, &addr(AUTHORITY), 1).unwrap();
    let (record, _) = derive_address(&b"handler".to_vec(), &vec![HANDLER.to_vec()], &addr(PROGRAM)).unwrap();
    assert_eq!(call.accounts[2].address, record);
    assert_eq!(call.accounts[0].address, mint);
    assert_eq!(call.accounts[1].address, token);
}

#[test]
fn mint_to_rejects_account_of_other_handler() {
    let mut b = setup();
    let (mint, _) = mint_with_account(&mut b, HANDLER, 7, AUTHORITY);
    let (_, foreign) = mint_with_account(&mut b, OTHER_HANDLER, 8, AUTHORITY);
    let err = b.mint_to(&addr(HANDLER), &foreign, &mint, &addr(AUTHORITY), 100).unwrap_err();
    assert_eq!(err, BrokerError::OwnershipMismatch);
    let err = b.mint_to(&addr(OTHER_HANDLER), &foreign, &mint, &addr(AUTHORITY), 100).unwrap_err();
    assert_eq!(err, BrokerError::OwnershipMismatch);
}

#[test]
fn mint_to_rejects_wrong_authority() {
    let mut b = setup();
    let (mint, token) = mint_with_account(&mut b, HANDLER, 7, AUTHORITY);
    let err = b.mint_to(&addr(HANDLER), &token, &mint, &addr([6; 32]), 100).unwrap_err();
    assert_eq!(err, BrokerError::CredentialMismatch);
}

#[test]
fn mint_to_rejects_mint_other_than_recorded() {
    let mut b = setup();
    let (_, token) = mint_with_account(&mut b, HANDLER, 7, AUTHORITY);
    let (other_mint, _) = mint_with_account(&mut b, HANDLER, 8, AUTHORITY);
    let err = b.mint_to(&addr(HANDLER), &token, &other_mint, &addr(AUTHORITY), 100).unwrap_err();
    assert_eq!(err, BrokerError::DerivationMismatch);
}

#[test]
fn transfer_moves_balance_between_accounts() {
    let mut b = setup();
    let receiver = [8u8; 32];
    let (mint, from) = mint_with_account(&mut b, HANDLER, 7, AUTHORITY);
    let to = token_address(7, receiver);
    let call = b.initialize_token_account(&addr(HANDLER), &to, &addr(PAYER), &addr(receiver), 7, &Vec::new()).unwrap();
    process(&mut b.ledger, &addr(HANDLER), &call).unwrap();
    let call = b.mint_to(&addr(HANDLER), &from, &mint, &addr(AUTHORITY), 50).unwrap();
    process(&mut b.ledger, &addr(HANDLER), &call).unwrap();
    let call = b.transfer(&addr(HANDLER), &from, &to, &addr(AUTHORITY), 20, &vec![1, 2]).unwrap();
    let mut expected = vec![0xa3, 0x34, 0xc8, 0xe7, 0x8c, 0x03, 0x45, 0xba];
    expected.extend_from_slice(&20u64.to_le_bytes());
    expected.extend_from_slice(&[1, 2]);
    assert_eq!(call.data, expected);
    assert!(matches!(call.credential, Credential::Broker(_)));
    process(&mut b.ledger, &addr(HANDLER), &call).unwrap();
    assert_eq!(u64_at(&data(&b, &from), 48), 30);
    assert_eq!(u64_at(&data(&b, &to), 48), 20);
    let call = b.transfer(&addr(HANDLER), &from, &to, &addr(AUTHORITY), 31, &Vec::new()).unwrap();
    assert_eq!(process(&mut b.ledger, &addr(HANDLER), &call).unwrap_err(), BrokerError::InsufficientBalance);
    assert_eq!(u64_at(&data(&b, &from), 48), 30);
}

#[test]
fn transfer_rejects_wrong_authority() {
    let mut b = setup();
    let (_, from) = mint_with_account(&mut b, HANDLER, 7, AUTHORITY);
    let err = b.transfer(&addr(HANDLER), &from, &from, &addr([6; 32]), 1, &Vec::new()).unwrap_err();
    assert_eq!(err, BrokerError::CredentialMismatch);
}

#[test]
fn transfer_between_mints_fails_in_handler() {
    let mut b = setup();
    let (mint, from) = mint_with_account(&mut b, HANDLER, 7, AUTHORITY);
    let (_, to) = mint_with_account(&mut b, HANDLER, 8, AUTHORITY);
    let call = b.mint_to(&addr(HANDLER), &from, &mint, &addr(AUTHORITY), 5).unwrap();
    process(&mut b.ledger, &addr(HANDLER), &call).unwrap();
    let call = b.transfer(&addr(HANDLER), &from, &to, &addr(AUTHORITY), 1, &Vec::new()).unwrap();
    assert_eq!(process(&mut b.ledger, &addr(HANDLER), &call).unwrap_err(), BrokerError::MintMismatch);
}

#[test]
fn handler_refuses_unsigned_mint_to() {
    let mut b = setup();
    let (mint, token) = mint_with_account(&mut b, HANDLER, 7, AUTHORITY);
    let mut call = b.mint_to(&addr(HANDLER), &token, &mint, &addr(AUTHORITY), 5).unwrap();
    call.credential = Credential::Caller;
    assert_eq!(process(&mut b.ledger, &addr(HANDLER), &call).unwrap_err(), BrokerError::CredentialMismatch);
}

#[test]
fn handler_refuses_unknown_tag() {
    let mut b = setup();
    let (mint, token) = mint_with_account(&mut b, HANDLER, 7, AUTHORITY);
    let mut call = b.mint_to(&addr(HANDLER), &token, &mint, &addr(AUTHORITY), 5).unwrap();
    call.data[0] ^= 1;
    assert_eq!(process(&mut b.ledger, &addr(HANDLER), &call).unwrap_err(), BrokerError::UnknownOperation);
}

#[test]
fn handler_overflow_is_refused() {
    let mut b = setup();
    let (mint, token) = mint_with_account(&mut b, HANDLER, 7, AUTHORITY);
    let call = b.mint_to(&addr(HANDLER), &token, &mint, &addr(AUTHORITY), u64::MAX).unwrap();
    process(&mut b.ledger, &addr(HANDLER), &call).unwrap();
    let call = b.mint_to(&addr(HANDLER), &token, &mint, &addr(AUTHORITY), 1).unwrap();
    assert_eq!(process(&mut b.ledger, &addr(HANDLER), &call).unwrap_err(), BrokerError::Overflow);
    assert_eq!(u64_at(&data(&b, &token), 48), u64::MAX);
}

#[test]
fn mint_to_rejects_short_token_account() {
    let mut b = setup();
    b.register_handler(&addr(HANDLER), 20, 49).unwrap();
    let mint = mint_address(7);
    b.initialize_mint(&addr(HANDLER), &mint, &addr(PAYER), 7, &mint_payload(AUTHORITY, 0)).unwrap();
    let token = token_address(7, AUTHORITY);
    b.initialize_token_account(&addr(HANDLER), &token, &addr(PAYER), &addr(AUTHORITY), 7, &Vec::new()).unwrap();
    let err = b.mint_to(&addr(HANDLER), &token, &mint, &addr(AUTHORITY), 1).unwrap_err();
    assert_eq!(err, BrokerError::LayoutMismatch);
}

#[test]
fn handler_records_read_back() {
    let mut b = setup();
    let (mint, token) = mint_with_account(&mut b, HANDLER, 7, AUTHORITY);
    let call = b.mint_to(&addr(HANDLER), &token, &mint, &addr(AUTHORITY), 100).unwrap();
    process(&mut b.ledger, &addr(HANDLER), &call).unwrap();
    let m = read_mint(&data(&b, &mint)).unwrap();
    assert_eq!(m, Mint { mint_authority: addr(AUTHORITY), supply: 100, decimals: 6 });
    let t = read_token_account(&data(&b, &token)).unwrap();
    assert_eq!(t, TokenAccount { authority: addr(AUTHORITY), mint: 7, balance: 100 });
    assert!(read_mint(&data(&b, &token)).is_none());
    assert!(read_token_account(&data(&b, &mint)).is_none());
    assert!(read_mint(&vec![0u8; 10]).is_none());
}

#[test]
fn relay_prefixes_discriminator() {
    let accounts = vec![AccountRef { address: addr(PAYER), is_signer: false, is_writable: true }];
    let call = relay(addr(HANDLER), &vec![1, 2, 3, 4, 5, 6, 7, 8], &vec![9, 10], accounts, Credential::Caller);
    assert_eq!(call.data, vec![1, 2, 3, 4, 5, 6, 7, 8, 9, 10]);
    assert_eq!(call.program, addr(HANDLER));
    assert_eq!(call.accounts[0].address, addr(PAYER));
}

#[test]
fn transfer_rejects_account_of_other_handler() {
    let mut b = setup();
    let (_, from) = mint_with_account(&mut b, HANDLER, 7, AUTHORITY);
    let (_, foreign) = mint_with_account(&mut b, OTHER_HANDLER, 9, [8; 32]);
    let err = b.transfer(&addr(HANDLER), &from, &foreign, &addr(AUTHORITY), 1, &Vec::new()).unwrap_err();
    assert_eq!(err, BrokerError::OwnershipMismatch);
    let err = b.transfer(&addr([77; 32]), &from, &from, &addr(AUTHORITY), 1, &Vec::new()).unwrap_err();
    assert_eq!(err, BrokerError::NotRegistered);
}

#[test]
fn handler_refuses_second_initialization() {
    let mut b = setup();
    let mint = mint_address(7);
    let call = b.initialize_mint(&addr(HANDLER), &mint, &addr(PAYER), 7, &mint_payload(AUTHORITY, 6)).unwrap();
    process(&mut b.ledger, &addr(HANDLER), &call).unwrap();
    assert_eq!(process(&mut b.ledger, &addr(HANDLER), &call).unwrap_err(), BrokerError::LayoutMismatch);
    assert_eq!(process(&mut b.ledger, &addr(OTHER_HANDLER), &call).unwrap_err(), BrokerError::OwnershipMismatch);
}
