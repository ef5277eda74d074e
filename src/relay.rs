use vstd::prelude::*;
use crate::address::Address;
use crate::bytes::{copy_bytes, le_bytes, push_bytes, u64_le_bytes};

verus! {

/// Tag of the handler operation that initializes a mint region.
pub open spec fn init_mint_tag() -> Seq<u8> {
    seq![0xd1u8, 0x2a, 0xc3, 0x04, 0x81, 0x55, 0xd1, 0x2c]
}

/// Tag of the handler operation that initializes a token-account region.
pub open spec fn init_token_account_tag() -> Seq<u8> {
    seq![0x96u8, 0x55, 0x2c, 0x1c, 0x95, 0x0e, 0xd2, 0x1a]
}

/// Tag of the handler operation that mints into a token account.
pub open spec fn mint_to_tag() -> Seq<u8> {
    seq![0xf1u8, 0x22, 0x30, 0xba, 0x25, 0xb3, 0x7b, 0xc0]
}

/// Tag of the handler operation that moves an amount between token accounts.
pub open spec fn transfer_tag() -> Seq<u8> {
    seq![0xa3u8, 0x34, 0xc8, 0xe7, 0x8c, 0x03, 0x45, 0xba]
}

fn eight_bytes(b0: u8, b1: u8, b2: u8, b3: u8, b4: u8, b5: u8, b6: u8, b7: u8) -> (r: Vec<u8>)
    ensures
        r@ == seq![b0, b1, b2, b3, b4, b5, b6, b7],
{
    let mut r: Vec<u8> = Vec::new();
    r.push(b0);
    r.push(b1);
    r.push(b2);
    r.push(b3);
    r.push(b4);
    r.push(b5);
    r.push(b6);
    r.push(b7);
    proof {
        assert(r@ =~= seq![b0, b1, b2, b3, b4, b5, b6, b7]);
    }
    r
}

pub fn init_mint_tag_bytes() -> (r: Vec<u8>)
    ensures
        r@ == init_mint_tag(),
{
    eight_bytes(0xd1, 0x2a, 0xc3, 0x04, 0x81, 0x55, 0xd1, 0x2c)
}

pub fn init_token_account_tag_bytes() -> (r: Vec<u8>)
    ensures
        r@ == init_token_account_tag(),
{
    eight_bytes(0x96, 0x55, 0x2c, 0x1c, 0x95, 0x0e, 0xd2, 0x1a)
}

pub fn mint_to_tag_bytes() -> (r: Vec<u8>)
    ensures
        r@ == mint_to_tag(),
{
    eight_bytes(0xf1, 0x22, 0x30, 0xba, 0x25, 0xb3, 0x7b, 0xc0)
}

pub fn transfer_tag_bytes() -> (r: Vec<u8>)
    ensures
        r@ == transfer_tag(),
{
    eight_bytes(0xa3, 0x34, 0xc8, 0xe7, 0x8c, 0x03, 0x45, 0xba)
}

/// A region that a sub-call names, with what the handler may do with it.
#[derive(Clone, Copy, Debug)]
pub struct AccountRef {
    pub address: Address,
    pub is_signer: bool,
    pub is_writable: bool,
}

impl View for AccountRef {
    type V = (Seq<u8>, bool, bool);

    open spec fn view(&self) -> (Seq<u8>, bool, bool) {
        (self.address@, self.is_signer, self.is_writable)
    }
}

/// Who vouches for a sub-call.
#[derive(Debug)]
pub enum Credential {
    /// Only what the immediate caller itself signed; the broker adds nothing.
    Caller,
    /// The broker signs with these seeds of its own derivation.
    Broker(Vec<Vec<u8>>),
}

/// A tagged call into a handler, ready to be forwarded.
#[derive(Debug)]
pub struct RelayCall {
    pub program: Address,
    pub accounts: Vec<AccountRef>,
    pub data: Vec<u8>,
    pub credential: Credential,
}

pub struct RelayView {
    pub program: Seq<u8>,
    pub accounts: Seq<(Seq<u8>, bool, bool)>,
    pub data: Seq<u8>,
    /// The seeds the broker signs with, or `None` where it signs nothing.
    pub broker_seeds: Option<Seq<Seq<u8>>>,
}

pub open spec fn credential_view(c: Credential) -> Option<Seq<Seq<u8>>> {
    match c {
        Credential::Caller => None,
        Credential::Broker(seeds) => Some(seeds@.map_values(|s: Vec<u8>| s@)),
    }
}

impl View for RelayCall {
    type V = RelayView;

    open spec fn view(&self) -> RelayView {
        RelayView {
            program: self.program@,
            accounts: self.accounts@.map_values(|a: AccountRef| a@),
            data: self.data@,
            broker_seeds: credential_view(self.credential),
        }
    }
}

/// Builds the call to `program` whose data is `discriminator` followed by
/// `payload`.
pub fn relay(
    program: Address,
    discriminator: &Vec<u8>,
    payload: &Vec<u8>,
    accounts: Vec<AccountRef>,
    credential: Credential,
) -> (r: RelayCall)
    ensures
        r@ == (RelayView {
            program: program@,
            accounts: accounts@.map_values(|a: AccountRef| a@),
            data: discriminator@ + payload@,
            broker_seeds: credential_view(credential),
        }),
{
    let mut data = copy_bytes(discriminator);
    push_bytes(&mut data, payload.as_slice());
    RelayCall { program, accounts, data, credential }
}

/// The arguments of token-account initialization: the authority, the mint
/// nonce in eight little-endian bytes, then the caller's own data.
pub fn token_account_payload(authority: &Address, mint_nonce: u64, extra: &Vec<u8>) -> (r: Vec<u8>)
    ensures
        r@ == authority@ + le_bytes(mint_nonce as nat, 8) + extra@,
{
    let mut r: Vec<u8> = Vec::new();
    push_bytes(&mut r, authority.bytes.as_slice());
    let nonce = u64_le_bytes(mint_nonce);
    push_bytes(&mut r, nonce.as_slice());
    push_bytes(&mut r, extra.as_slice());
    proof {
        assert(r@ =~= authority@ + le_bytes(mint_nonce as nat, 8) + extra@);
    }
    r
}

/// The arguments of a transfer: the amount in eight little-endian bytes,
/// then the caller's own data.
pub fn transfer_payload(amount: u64, extra: &Vec<u8>) -> (r: Vec<u8>)
    ensures
        r@ == le_bytes(amount as nat, 8) + extra@,
{
    let mut r = u64_le_bytes(amount);
    push_bytes(&mut r, extra.as_slice());
    r
}

} // verus!
