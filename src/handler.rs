//! The basic token handler: the simplest code that keeps the storage layout
//! that every handler agrees to with the broker.
//!
//! A mint region holds its kind tag in bytes `[0, 8)`, the mint authority in
//! `[8, 40)`, the supply in `[40, 48)` and the decimals in byte 48. A token
//! account holds its kind tag in `[0, 8)`, the authority in `[8, 40)`, the
//! mint nonce in `[40, 48)` and the balance in `[48, 56)`. Numbers are
//! little-endian.

use vstd::prelude::*;
use crate::address::Address;
use crate::bytes::{
    address_at, starts_with, le_bytes, le_value, lemma_u64_round_trip, put_bytes, read_u64_le,
    u64_le_bytes, write_bytes,
};
use crate::error::BrokerError;
use crate::ledger::Ledger;
use crate::relay::{
    Credential, RelayCall, RelayView, init_mint_tag, init_mint_tag_bytes, init_token_account_tag,
    init_token_account_tag_bytes, mint_to_tag, mint_to_tag_bytes, transfer_tag, transfer_tag_bytes,
};

verus! {

/// Length of a mint region.
pub const MINT_LEN: usize = 49;

/// Length of a token-account region.
pub const TOKEN_ACCOUNT_LEN: usize = 56;

/// Kind tag at the start of a mint region.
pub open spec fn mint_kind() -> Seq<u8> {
    seq![0x50u8, 0xbc, 0xf5, 0x14, 0x5f, 0x8a, 0x39, 0x9c]
}

/// Kind tag at the start of a token-account region.
pub open spec fn token_account_kind() -> Seq<u8> {
    seq![0xdcu8, 0x83, 0xec, 0x10, 0x91, 0xce, 0xcf, 0x36]
}

fn mint_kind_bytes() -> (r: Vec<u8>)
    ensures
        r@ == mint_kind(),
{
    let mut r: Vec<u8> = Vec::new();
    r.push(0x50);
    r.push(0xbc);
    r.push(0xf5);
    r.push(0x14);
    r.push(0x5f);
    r.push(0x8a);
    r.push(0x39);
    r.push(0x9c);
    proof {
        assert(r@ =~= mint_kind());
    }
    r
}

fn token_account_kind_bytes() -> (r: Vec<u8>)
    ensures
        r@ == token_account_kind(),
{
    let mut r: Vec<u8> = Vec::new();
    r.push(0xdc);
    r.push(0x83);
    r.push(0xec);
    r.push(0x10);
    r.push(0x91);
    r.push(0xce);
    r.push(0xcf);
    r.push(0x36);
    proof {
        assert(r@ =~= token_account_kind());
    }
    r
}

fn blank_kind() -> (r: Vec<u8>)
    ensures
        r@ == seq![0u8, 0, 0, 0, 0, 0, 0, 0],
{
    let mut r: Vec<u8> = Vec::new();
    let mut i: usize = 0;
    while i < 8
        invariant
            0 <= i <= 8,
            r@ == Seq::new(i as nat, |j: int| 0u8),
        decreases 8 - i,
    {
        r.push(0);
        proof {
            assert(r@ =~= Seq::new((i + 1) as nat, |j: int| 0u8));
        }
        i = i + 1;
    }
    proof {
        assert(r@ =~= seq![0u8, 0, 0, 0, 0, 0, 0, 0]);
    }
    r
}

/// Whether the region at `k` belongs to `program`, is at least `len` bytes
/// long, and starts with `kind`.
pub open spec fn holds_kind(l: Ledger, program: Seq<u8>, k: Seq<u8>, len: nat, kind: Seq<u8>) -> bool {
    &&& l.owner_of(k) == program
    &&& l.data_of(k).len() >= len
    &&& l.data_of(k).subrange(0, 8) == kind
}

/// The supply that the mint region at `k` records.
pub open spec fn supply_of(l: Ledger, k: Seq<u8>) -> nat {
    le_value(l.data_of(k).subrange(40, 48))
}

/// The balance that the token account at `k` records.
pub open spec fn balance_of(l: Ledger, k: Seq<u8>) -> nat {
    le_value(l.data_of(k).subrange(48, 56))
}

/// Why a region at `k` of kind `kind` cannot be used, if it cannot.
pub open spec fn kind_error(l: Ledger, program: Seq<u8>, k: Seq<u8>, len: nat, kind: Seq<u8>) -> Option<BrokerError> {
    if l.owner_of(k) != program {
        Some(BrokerError::OwnershipMismatch)
    } else if !holds_kind(l, program, k, len, kind) {
        Some(BrokerError::LayoutMismatch)
    } else {
        None
    }
}

fn check_kind(l: &Ledger, program: &Address, k: &Address, len: usize, kind: &Vec<u8>) -> (r: Result<Vec<u8>, BrokerError>)
    requires
        len >= 8,
        kind@.len() == 8,
    ensures
        r matches Ok(d) ==> kind_error(*l, program@, k@, len as nat, kind@) is None && d@ == l.data_of(k@) && l.region_of(k@) is Some,
        r matches Err(e) ==> kind_error(*l, program@, k@, len as nat, kind@) == Some(e),
{
    if l.owner(k) != *program {
        return Err(BrokerError::OwnershipMismatch);
    }
    let d = l.data(k);
    if d.len() < len || !starts_with(&d, kind) {
        return Err(BrokerError::LayoutMismatch);
    }
    Ok(d)
}

/// What initializing the mint at `mint` yields: `r` and the ledger `post`.
pub open spec fn mint_initialized(pre: Ledger, post: Ledger, program: Seq<u8>, mint: Seq<u8>, mint_authority: Seq<u8>, decimals: u8, r: Result<(), BrokerError>) -> bool {
    match kind_error(pre, program, mint, MINT_LEN as nat, seq![0u8, 0, 0, 0, 0, 0, 0, 0]) {
        Some(e) => r == Err::<(), BrokerError>(e) && post == pre,
        None => r is Ok && pre.rewritten(post, mint,
            put_bytes(put_bytes(put_bytes(pre.data_of(mint), 0, mint_kind()), 8, mint_authority), 48, seq![decimals])),
    }
}

/// Writes a fresh mint at `mint`: the kind tag, `mint_authority` and
/// `decimals`. The region must belong to `program` and be blank.
pub fn initialize_mint(l: &mut Ledger, program: &Address, mint: &Address, mint_authority: &Address, decimals: u8) -> (r: Result<(), BrokerError>)
    ensures
        mint_initialized(*old(l), *final(l), program@, mint@, mint_authority@, decimals, r),
{
    let mut d = match check_kind(l, program, mint, MINT_LEN, &blank_kind()) {
        Ok(d) => d,
        Err(e) => {
            return Err(e);
        },
    };
    write_bytes(&mut d, 0, &mint_kind_bytes());
    write_bytes(&mut d, 8, &mint_authority.to_vec());
    let mut dec: Vec<u8> = Vec::new();
    dec.push(decimals);
    proof {
        assert(dec@ =~= seq![decimals]);
    }
    write_bytes(&mut d, 48, &dec);
    l.set_data(mint, d);
    Ok(())
}

/// What initializing the token account at `account` yields: `r` and the
/// ledger `post`.
pub open spec fn token_account_initialized(pre: Ledger, post: Ledger, program: Seq<u8>, account: Seq<u8>, authority: Seq<u8>, mint: u64, r: Result<(), BrokerError>) -> bool {
    match kind_error(pre, program, account, TOKEN_ACCOUNT_LEN as nat, seq![0u8, 0, 0, 0, 0, 0, 0, 0]) {
        Some(e) => r == Err::<(), BrokerError>(e) && post == pre,
        None => r is Ok && pre.rewritten(post, account,
            put_bytes(put_bytes(put_bytes(pre.data_of(account), 0, token_account_kind()), 8, authority), 40, le_bytes(mint as nat, 8))),
    }
}

/// Writes a fresh token account at `account`: the kind tag, `authority` and
/// the nonce of its mint. The region must belong to `program` and be blank.
pub fn initialize_token_account(l: &mut Ledger, program: &Address, account: &Address, authority: &Address, mint: u64) -> (r: Result<(), BrokerError>)
    ensures
        token_account_initialized(*old(l), *final(l), program@, account@, authority@, mint, r),
{
    let mut d = match check_kind(l, program, account, TOKEN_ACCOUNT_LEN, &blank_kind()) {
        Ok(d) => d,
        Err(e) => {
            return Err(e);
        },
    };
    write_bytes(&mut d, 0, &token_account_kind_bytes());
    write_bytes(&mut d, 8, &authority.to_vec());
    proof {
        lemma_u64_round_trip(mint);
    }
    write_bytes(&mut d, 40, &u64_le_bytes(mint));
    l.set_data(account, d);
    Ok(())
}

/// Why minting `amount` into `to` of `mint` is refused, if it is.
pub open spec fn mint_to_error(l: Ledger, program: Seq<u8>, mint: Seq<u8>, to: Seq<u8>, amount: nat) -> Option<BrokerError> {
    if l.owner_of(mint) != program || l.owner_of(to) != program {
        Some(BrokerError::OwnershipMismatch)
    } else if kind_error(l, program, mint, MINT_LEN as nat, mint_kind()) is Some
        || kind_error(l, program, to, TOKEN_ACCOUNT_LEN as nat, token_account_kind()) is Some {
        Some(BrokerError::LayoutMismatch)
    } else if balance_of(l, to) + amount > u64::MAX || supply_of(l, mint) + amount > u64::MAX {
        Some(BrokerError::Overflow)
    } else {
        None
    }
}

/// `post` is `pre` with `amount` added to the balance of `to` and to the
/// supply of `mint`, and nothing else changed.
pub open spec fn minted(pre: Ledger, post: Ledger, mint: Seq<u8>, to: Seq<u8>, amount: nat) -> bool {
    let to_data = put_bytes(pre.data_of(to), 48, le_bytes(balance_of(pre, to) + amount, 8));
    let mint_data = put_bytes(pre.data_of(mint), 40, le_bytes(supply_of(pre, mint) + amount, 8));
    exists|mid: Ledger| pre.rewritten(mid, to, to_data) && mid.rewritten(post, mint, mint_data)
}

/// What minting `amount` yields: `r` and the ledger `post`.
pub open spec fn mint_to_outcome(pre: Ledger, post: Ledger, program: Seq<u8>, mint: Seq<u8>, to: Seq<u8>, amount: nat, r: Result<(), BrokerError>) -> bool {
    match mint_to_error(pre, program, mint, to, amount) {
        Some(e) => r == Err::<(), BrokerError>(e) && post == pre,
        None => {
            &&& r is Ok
            &&& minted(pre, post, mint, to, amount)
            &&& balance_of(post, to) == balance_of(pre, to) + amount
            &&& supply_of(post, mint) == supply_of(pre, mint) + amount
        },
    }
}

/// Adds `amount` to the balance of `to` and to the supply of `mint`.
pub fn mint_to(l: &mut Ledger, program: &Address, mint: &Address, to: &Address, amount: u64) -> (r: Result<(), BrokerError>)
    ensures
        mint_to_outcome(*old(l), *final(l), program@, mint@, to@, amount as nat, r),
{
    if l.owner(mint) != *program || l.owner(to) != *program {
        return Err(BrokerError::OwnershipMismatch);
    }
    let mut mint_data = match check_kind(l, program, mint, MINT_LEN, &mint_kind_bytes()) {
        Ok(d) => d,
        Err(_) => {
            return Err(BrokerError::LayoutMismatch);
        },
    };
    let mut to_data = match check_kind(l, program, to, TOKEN_ACCOUNT_LEN, &token_account_kind_bytes()) {
        Ok(d) => d,
        Err(_) => {
            return Err(BrokerError::LayoutMismatch);
        },
    };
    proof {
        assert(mint@ != to@) by {
            if mint@ == to@ {
                assert(mint_kind()[0] != token_account_kind()[0]);
            }
        }
    }
    let balance = read_u64_le(&to_data, 48);
    let supply = read_u64_le(&mint_data, 40);
    let new_balance = match balance.checked_add(amount) {
        Some(v) => v,
        None => {
            return Err(BrokerError::Overflow);
        },
    };
    let new_supply = match supply.checked_add(amount) {
        Some(v) => v,
        None => {
            return Err(BrokerError::Overflow);
        },
    };
    let ghost pre = *l;
    proof {
        lemma_u64_round_trip(new_balance);
        lemma_u64_round_trip(new_supply);
    }
    write_bytes(&mut to_data, 48, &u64_le_bytes(new_balance));
    l.set_data(to, to_data);
    let ghost mid = *l;
    write_bytes(&mut mint_data, 40, &u64_le_bytes(new_supply));
    l.set_data(mint, mint_data);
    proof {
        assert(pre.rewritten(mid, to@, mid.data_of(to@)));
        let td = mid.data_of(to@);
        assert(td.subrange(48, 56) =~= le_bytes(new_balance as nat, 8));
        let md = l.data_of(mint@);
        assert(md.subrange(40, 48) =~= le_bytes(new_supply as nat, 8));
        assert(l.data_of(to@) == td);
    }
    Ok(())
}

/// Why moving `amount` from `from` to `to` is refused, if it is.
pub open spec fn transfer_error(l: Ledger, program: Seq<u8>, from: Seq<u8>, to: Seq<u8>, amount: nat) -> Option<BrokerError> {
    if l.owner_of(from) != program || l.owner_of(to) != program {
        Some(BrokerError::OwnershipMismatch)
    } else if kind_error(l, program, from, TOKEN_ACCOUNT_LEN as nat, token_account_kind()) is Some
        || kind_error(l, program, to, TOKEN_ACCOUNT_LEN as nat, token_account_kind()) is Some {
        Some(BrokerError::LayoutMismatch)
    } else if balance_of(l, from) < amount {
        Some(BrokerError::InsufficientBalance)
    } else if l.data_of(from).subrange(40, 48) != l.data_of(to).subrange(40, 48) {
        Some(BrokerError::MintMismatch)
    } else if from != to && balance_of(l, to) + amount > u64::MAX {
        Some(BrokerError::Overflow)
    } else {
        None
    }
}

/// What moving `amount` from `from` to `to` yields: `r` and the ledger `post`.
/// Moving to the sending account itself changes nothing.
pub open spec fn transfer_outcome(pre: Ledger, post: Ledger, program: Seq<u8>, from: Seq<u8>, to: Seq<u8>, amount: nat, r: Result<(), BrokerError>) -> bool {
    match transfer_error(pre, program, from, to, amount) {
        Some(e) => r == Err::<(), BrokerError>(e) && post == pre,
        None => r is Ok && if from == to {
            post == pre
        } else {
            let from_data = put_bytes(pre.data_of(from), 48, le_bytes((balance_of(pre, from) - amount) as nat, 8));
            let to_data = put_bytes(pre.data_of(to), 48, le_bytes(balance_of(pre, to) + amount, 8));
            &&& exists|mid: Ledger| pre.rewritten(mid, from, from_data) && mid.rewritten(post, to, to_data)
            &&& balance_of(post, from) == balance_of(pre, from) - amount
            &&& balance_of(post, to) == balance_of(pre, to) + amount
        },
    }
}

/// Moves `amount` from `from` to `to`, two token accounts of one mint.
pub fn transfer(l: &mut Ledger, program: &Address, from: &Address, to: &Address, amount: u64) -> (r: Result<(), BrokerError>)
    ensures
        transfer_outcome(*old(l), *final(l), program@, from@, to@, amount as nat, r),
{
    if l.owner(from) != *program || l.owner(to) != *program {
        return Err(BrokerError::OwnershipMismatch);
    }
    let mut from_data = match check_kind(l, program, from, TOKEN_ACCOUNT_LEN, &token_account_kind_bytes()) {
        Ok(d) => d,
        Err(_) => {
            return Err(BrokerError::LayoutMismatch);
        },
    };
    let mut to_data = match check_kind(l, program, to, TOKEN_ACCOUNT_LEN, &token_account_kind_bytes()) {
        Ok(d) => d,
        Err(_) => {
            return Err(BrokerError::LayoutMismatch);
        },
    };
    let from_balance = read_u64_le(&from_data, 48);
    if from_balance < amount {
        return Err(BrokerError::InsufficientBalance);
    }
    if !starts_with_at(&from_data, &to_data, 40) {
        return Err(BrokerError::MintMismatch);
    }
    if *from == *to {
        return Ok(());
    }
    let to_balance = read_u64_le(&to_data, 48);
    let new_to = match to_balance.checked_add(amount) {
        Some(v) => v,
        None => {
            return Err(BrokerError::Overflow);
        },
    };
    let new_from = from_balance - amount;
    let ghost pre = *l;
    proof {
        lemma_u64_round_trip(new_from);
        lemma_u64_round_trip(new_to);
    }
    write_bytes(&mut from_data, 48, &u64_le_bytes(new_from));
    l.set_data(from, from_data);
    let ghost mid = *l;
    write_bytes(&mut to_data, 48, &u64_le_bytes(new_to));
    l.set_data(to, to_data);
    proof {
        let fd = mid.data_of(from@);
        assert(fd.subrange(48, 56) =~= le_bytes(new_from as nat, 8));
        let td = l.data_of(to@);
        assert(td.subrange(48, 56) =~= le_bytes(new_to as nat, 8));
        assert(l.data_of(from@) == fd);
    }
    Ok(())
}

/// Whether `a` and `b` agree on their eight bytes from `start`.
fn starts_with_at(a: &Vec<u8>, b: &Vec<u8>, start: usize) -> (r: bool)
    requires
        start + 8 <= a@.len(),
        start + 8 <= b@.len(),
    ensures
        r == (a@.subrange(start as int, start + 8) == b@.subrange(start as int, start + 8)),
{
    let n = a.len();
    let m = b.len();
    let mut i: usize = 0;
    while i < 8
        invariant
            0 <= i <= 8,
            n == a@.len(),
            m == b@.len(),
            start + 8 <= n,
            start + 8 <= m,
            forall|j: int| 0 <= j < i ==> #[trigger] a@[start + j] == b@[start + j],
        decreases 8 - i,
    {
        if a[start + i] != b[start + i] {
            proof {
                assert(a@.subrange(start as int, start + 8)[i as int] != b@.subrange(start as int, start + 8)[i as int]);
            }
            return false;
        }
        i = i + 1;
    }
    proof {
        assert forall|j: int| 0 <= j < 8 implies #[trigger] a@.subrange(start as int, start + 8)[j] == b@.subrange(start as int, start + 8)[j] by {
            assert(a@[start + j] == b@[start + j]);
        }
        assert(a@.subrange(start as int, start + 8) =~= b@.subrange(start as int, start + 8));
    }
    true
}

/// Whether a call is signed by the broker for its handler: the third region
/// it names signs, and the broker vouches with seeds of its own.
pub open spec fn broker_signed(call: RelayView) -> bool {
    call.accounts.len() >= 3 && call.accounts[2].1 && call.broker_seeds is Some
}

/// What handling `call` yields: `r` and the ledger `post`.
pub open spec fn process_outcome(pre: Ledger, post: Ledger, program: Seq<u8>, call: RelayView, r: Result<(), BrokerError>) -> bool {
    let d = call.data;
    let acc = call.accounts;
    let refused = |e: BrokerError| r == Err::<(), BrokerError>(e) && post == pre;
    if d.len() < 8 {
        refused(BrokerError::UnknownOperation)
    } else if d.subrange(0, 8) == init_mint_tag() {
        if acc.len() < 1 || d.len() < 41 {
            refused(BrokerError::LayoutMismatch)
        } else {
            mint_initialized(pre, post, program, acc[0].0, d.subrange(8, 40), d[40], r)
        }
    } else if d.subrange(0, 8) == init_token_account_tag() {
        if acc.len() < 1 || d.len() < 48 {
            refused(BrokerError::LayoutMismatch)
        } else {
            token_account_initialized(pre, post, program, acc[0].0, d.subrange(8, 40), le_value(d.subrange(40, 48)) as u64, r)
        }
    } else if d.subrange(0, 8) == mint_to_tag() {
        if !broker_signed(call) {
            refused(BrokerError::CredentialMismatch)
        } else if d.len() < 16 {
            refused(BrokerError::LayoutMismatch)
        } else {
            mint_to_outcome(pre, post, program, acc[0].0, acc[1].0, le_value(d.subrange(8, 16)), r)
        }
    } else if d.subrange(0, 8) == transfer_tag() {
        if !broker_signed(call) {
            refused(BrokerError::CredentialMismatch)
        } else if d.len() < 16 {
            refused(BrokerError::LayoutMismatch)
        } else {
            transfer_outcome(pre, post, program, acc[0].0, acc[1].0, le_value(d.subrange(8, 16)), r)
        }
    } else {
        refused(BrokerError::UnknownOperation)
    }
}

/// Runs `call` as handler `program`: reads the operation tag, decodes the
/// arguments that follow it, and performs the operation on `l`.
pub fn process(l: &mut Ledger, program: &Address, call: &RelayCall) -> (r: Result<(), BrokerError>)
    ensures
        process_outcome(*old(l), *final(l), program@, call@, r),
{
    let d = &call.data;
    if d.len() < 8 {
        return Err(BrokerError::UnknownOperation);
    }
    if starts_with(d, &init_mint_tag_bytes()) {
        if call.accounts.len() < 1 || d.len() < 41 {
            return Err(BrokerError::LayoutMismatch);
        }
        let authority = address_at(d, 8);
        initialize_mint(l, program, &call.accounts[0].address, &authority, d[40])
    } else if starts_with(d, &init_token_account_tag_bytes()) {
        if call.accounts.len() < 1 || d.len() < 48 {
            return Err(BrokerError::LayoutMismatch);
        }
        let authority = address_at(d, 8);
        let mint = read_u64_le(d, 40);
        initialize_token_account(l, program, &call.accounts[0].address, &authority, mint)
    } else if starts_with(d, &mint_to_tag_bytes()) || starts_with(d, &transfer_tag_bytes()) {
        let signed = call.accounts.len() >= 3 && call.accounts[2].is_signer && match &call.credential {
            Credential::Broker(_) => true,
            Credential::Caller => false,
        };
        if !signed {
            return Err(BrokerError::CredentialMismatch);
        }
        if d.len() < 16 {
            return Err(BrokerError::LayoutMismatch);
        }
        let amount = read_u64_le(d, 8);
        if starts_with(d, &mint_to_tag_bytes()) {
            mint_to(l, program, &call.accounts[0].address, &call.accounts[1].address, amount)
        } else {
            transfer(l, program, &call.accounts[0].address, &call.accounts[1].address, amount)
        }
    } else {
        Err(BrokerError::UnknownOperation)
    }
}

/// A mint as the basic handler records it.
#[derive(Clone, Copy, Debug, PartialEq, Eq)]
pub struct Mint {
    pub mint_authority: Address,
    pub supply: u64,
    pub decimals: u8,
}

/// A token account as the basic handler records it.
#[derive(Clone, Copy, Debug, PartialEq, Eq)]
pub struct TokenAccount {
    pub authority: Address,
    pub mint: u64,
    pub balance: u64,
}

/// Reads the mint that `data` holds, if it is a mint region.
pub fn read_mint(data: &Vec<u8>) -> (r: Option<Mint>)
    ensures
        r is Some <==> data@.len() >= MINT_LEN && data@.subrange(0, 8) == mint_kind(),
        r matches Some(m) ==> {
            &&& m.mint_authority@ == data@.subrange(8, 40)
            &&& m.supply as nat == le_value(data@.subrange(40, 48))
            &&& m.decimals == data@[48]
        },
{
    if data.len() < MINT_LEN || !starts_with(data, &mint_kind_bytes()) {
        return None;
    }
    Some(Mint { mint_authority: address_at(data, 8), supply: read_u64_le(data, 40), decimals: data[48] })
}

/// Reads the token account that `data` holds, if it is a token-account region.
pub fn read_token_account(data: &Vec<u8>) -> (r: Option<TokenAccount>)
    ensures
        r is Some <==> data@.len() >= TOKEN_ACCOUNT_LEN && data@.subrange(0, 8) == token_account_kind(),
        r matches Some(t) ==> {
            &&& t.authority@ == data@.subrange(8, 40)
            &&& t.mint as nat == le_value(data@.subrange(40, 48))
            &&& t.balance as nat == le_value(data@.subrange(48, 56))
        },
{
    if data.len() < TOKEN_ACCOUNT_LEN || !starts_with(data, &token_account_kind_bytes()) {
        return None;
    }
    Some(TokenAccount { authority: address_at(data, 8), mint: read_u64_le(data, 40), balance: read_u64_le(data, 48) })
}

} // verus!
