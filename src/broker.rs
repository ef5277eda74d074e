use vstd::prelude::*;
use crate::address::{
    Address, create_program_address, created_address, derivation, derive_address, seeds_view,
    tagged_seeds,
};
use crate::bytes::{copy_range, holds_at, le_bytes, lemma_u64_round_trip, u64_le_bytes};
use crate::handler;
use crate::handler::{balance_of, process_outcome, supply_of};
use crate::error::BrokerError;
use crate::ledger::{Ledger, funding_for};
use crate::registry::{TokenHandler, Registry};
use crate::relay::{
    AccountRef, Credential, RelayCall, RelayView, init_mint_tag, init_mint_tag_bytes,
    init_token_account_tag, init_token_account_tag_bytes, mint_to_tag, mint_to_tag_bytes, relay,
    token_account_payload, transfer_payload, transfer_tag, transfer_tag_bytes,
};

verus! {

/// Namespace of handler records: "handler".
pub open spec fn handler_tag() -> Seq<u8> {
    seq![104u8, 97, 110, 100, 108, 101, 114]
}

/// Namespace of mint regions: "mint".
pub open spec fn mint_tag() -> Seq<u8> {
    seq![109u8, 105, 110, 116]
}

/// Namespace of token-account regions: "token".
pub open spec fn token_tag() -> Seq<u8> {
    seq![116u8, 111, 107, 101, 110]
}

/// Seeds of the record of handler `h`.
pub open spec fn handler_seeds(h: Seq<u8>) -> Seq<Seq<u8>> {
    tagged_seeds(handler_tag(), seq![h])
}

/// Seeds of the mint whose nonce is written as `nonce`.
pub open spec fn mint_seeds(nonce: Seq<u8>) -> Seq<Seq<u8>> {
    tagged_seeds(mint_tag(), seq![nonce])
}

/// Seeds of the token account of `authority` in the mint whose nonce is
/// written as `nonce`.
pub open spec fn token_seeds(nonce: Seq<u8>, authority: Seq<u8>) -> Seq<Seq<u8>> {
    tagged_seeds(token_tag(), seq![nonce, authority])
}

/// The call that lets handler `h` write the fresh mint at `mint` from `data`.
pub open spec fn init_mint_call(h: Seq<u8>, mint: Seq<u8>, data: Seq<u8>) -> RelayView {
    RelayView {
        program: h,
        accounts: seq![(mint, false, true)],
        data: init_mint_tag() + data,
        broker_seeds: None,
    }
}

/// The call that lets handler `h` write the fresh token account at `account`
/// of `authority` in the mint of `nonce`, followed by `data`.
pub open spec fn init_token_account_call(h: Seq<u8>, account: Seq<u8>, authority: Seq<u8>, nonce: u64, data: Seq<u8>) -> RelayView {
    RelayView {
        program: h,
        accounts: seq![(account, false, true)],
        data: init_token_account_tag() + authority + le_bytes(nonce as nat, 8) + data,
        broker_seeds: None,
    }
}

fn handler_tag_bytes() -> (r: Vec<u8>)
    ensures
        r@ == handler_tag(),
{
    let mut r: Vec<u8> = Vec::new();
    r.push(104);
    r.push(97);
    r.push(110);
    r.push(100);
    r.push(108);
    r.push(101);
    r.push(114);
    proof {
        assert(r@ =~= handler_tag());
    }
    r
}

fn mint_tag_bytes() -> (r: Vec<u8>)
    ensures
        r@ == mint_tag(),
{
    let mut r: Vec<u8> = Vec::new();
    r.push(109);
    r.push(105);
    r.push(110);
    r.push(116);
    proof {
        assert(r@ =~= mint_tag());
    }
    r
}

fn token_tag_bytes() -> (r: Vec<u8>)
    ensures
        r@ == token_tag(),
{
    let mut r: Vec<u8> = Vec::new();
    r.push(116);
    r.push(111);
    r.push(107);
    r.push(101);
    r.push(110);
    proof {
        assert(r@ =~= token_tag());
    }
    r
}

fn one_key(a: Vec<u8>) -> (r: Vec<Vec<u8>>)
    ensures
        seeds_view(r@) == seq![a@],
{
    let ghost av = a@;
    let mut r: Vec<Vec<u8>> = Vec::new();
    r.push(a);
    proof {
        assert(seeds_view(r@) =~= seq![av]);
    }
    r
}

fn two_keys(a: Vec<u8>, b: Vec<u8>) -> (r: Vec<Vec<u8>>)
    ensures
        seeds_view(r@) == seq![a@, b@],
{
    let ghost av = a@;
    let ghost bv = b@;
    let mut r: Vec<Vec<u8>> = Vec::new();
    r.push(a);
    r.push(b);
    proof {
        assert(seeds_view(r@) =~= seq![av, bv]);
    }
    r
}

/// The seeds, bump included, that the broker signs with for handler `h`.
fn handler_signer_seeds(h: &Address, bump: u8) -> (r: Vec<Vec<u8>>)
    ensures
        seeds_view(r@) == handler_seeds(h@).push(seq![bump]),
{
    let mut last: Vec<u8> = Vec::new();
    last.push(bump);
    let mut r: Vec<Vec<u8>> = Vec::new();
    r.push(handler_tag_bytes());
    r.push(h.to_vec());
    r.push(last);
    proof {
        assert(seeds_view(r@) =~= handler_seeds(h@).push(seq![bump]));
    }
    r
}

/// The broker: its own identity, the registered handlers, and the regions
/// of the runtime that it allocates into.
pub struct Broker {
    pub program_id: Address,
    pub registry: Registry,
    pub ledger: Ledger,
}

impl Broker {
    /// Why registering `h` is refused, if it is.
    pub open spec fn register_error(&self, h: Seq<u8>) -> Option<BrokerError> {
        if !(self.ledger.region_of(h) matches Some(r) && r.executable) {
            Some(BrokerError::NotExecutable)
        } else if derivation(handler_seeds(h), self.program_id@) is None {
            Some(BrokerError::DerivationMismatch)
        } else {
            None
        }
    }

    /// `post` is this broker after `h` was registered with the given sizes,
    /// and `rec` is the record it holds for `h` now.
    pub open spec fn registered(&self, post: Broker, h: Seq<u8>, token_bytes: u32, mint_bytes: u32, rec: TokenHandler) -> bool {
        &&& rec.handler_program@ == h
        &&& rec.token_account_bytes == token_bytes
        &&& rec.mint_account_bytes == mint_bytes
        &&& derivation(handler_seeds(h), self.program_id@) matches Some((_, b)) && rec.pda_bump == b
        &&& post.registry.record_of(h) == Some(rec)
        &&& forall|k: Seq<u8>| k != h ==> #[trigger] post.registry.record_of(k) == self.registry.record_of(k)
        &&& post.ledger == self.ledger
        &&& post.program_id == self.program_id
    }

    pub fn new(program_id: Address, ledger: Ledger) -> (r: Broker)
        ensures
            r.program_id == program_id,
            r.ledger == ledger,
            forall|h: Seq<u8>| #[trigger] r.registry.record_of(h) is None,
    {
        Broker { program_id, registry: Registry::new(), ledger }
    }

    /// Records that handler `handler_program` needs regions of the given
    /// sizes; a later registration of the same handler replaces the sizes.
    pub fn register_handler(&mut self, handler_program: &Address, token_account_bytes: u32, mint_account_bytes: u32) -> (r: Result<TokenHandler, BrokerError>)
        ensures
            old(self).register_error(handler_program@) matches Some(e) ==> r == Err::<TokenHandler, BrokerError>(e) && *final(self) == *old(self),
            old(self).register_error(handler_program@) is None ==> r is Ok
                && old(self).registered(*final(self), handler_program@, token_account_bytes, mint_account_bytes, r->Ok_0),
    {
        let executable = match self.ledger.get(handler_program) {
            Some(region) => region.executable,
            None => false,
        };
        if !executable {
            return Err(BrokerError::NotExecutable);
        }
        let tag = handler_tag_bytes();
        let keys = one_key(handler_program.to_vec());
        let bump = match derive_address(&tag, &keys, &self.program_id) {
            Some((_, b)) => b,
            None => {
                return Err(BrokerError::DerivationMismatch);
            },
        };
        let rec = TokenHandler {
            handler_program: *handler_program,
            token_account_bytes,
            mint_account_bytes,
            pda_bump: bump,
        };
        self.registry.upsert(rec);
        Ok(rec)
    }

    /// Why initializing the mint of `nonce` at `mint` for handler `h`, paid
    /// by `payer`, is refused, if it is.
    pub open spec fn mint_init_error(&self, h: Seq<u8>, mint: Seq<u8>, payer: Seq<u8>, nonce: u64) -> Option<BrokerError> {
        match self.registry.record_of(h) {
            None => Some(BrokerError::NotRegistered),
            Some(rec) => match derivation(mint_seeds(le_bytes(nonce as nat, 8)), self.program_id@) {
                Some((a, _)) if a == mint => self.ledger.allocation_error(payer, mint, rec.mint_account_bytes),
                _ => Some(BrokerError::DerivationMismatch),
            },
        }
    }

    /// `post` is this broker after it allocated a region of `size` bytes at
    /// `target` for handler `h`, paid by `payer`.
    pub open spec fn allocated_for(&self, post: Broker, h: Seq<u8>, target: Seq<u8>, payer: Seq<u8>, size: u32) -> bool {
        &&& post.program_id == self.program_id
        &&& post.registry == self.registry
        &&& self.ledger.allocated(post.ledger, payer, target, size, h)
    }

    /// Allocates the mint region of `nonce` for handler `handler_program`,
    /// paid by `payer`, and returns the call that lets the handler write the
    /// mint from `mint_data`. `mint` is the address the caller declares.
    pub fn initialize_mint(&mut self, handler_program: &Address, mint: &Address, payer: &Address, nonce: u64, mint_data: &Vec<u8>) -> (r: Result<RelayCall, BrokerError>)
        ensures
            old(self).mint_init_error(handler_program@, mint@, payer@, nonce) matches Some(e)
                ==> r is Err && r->Err_0 == e && *final(self) == *old(self),
            old(self).mint_init_error(handler_program@, mint@, payer@, nonce) is None ==> {
                &&& r is Ok
                &&& r->Ok_0@ == init_mint_call(handler_program@, mint@, mint_data@)
                &&& old(self).allocated_for(*final(self), handler_program@, mint@, payer@,
                    old(self).registry.record_of(handler_program@)->Some_0.mint_account_bytes)
            },
    {
        let rec = match self.registry.lookup(handler_program) {
            Ok(rec) => rec,
            Err(e) => {
                return Err(e);
            },
        };
        let tag = mint_tag_bytes();
        let keys = one_key(u64_le_bytes(nonce));
        match derive_address(&tag, &keys, &self.program_id) {
            Some((a, _)) => {
                if a != *mint {
                    return Err(BrokerError::DerivationMismatch);
                }
            },
            None => {
                return Err(BrokerError::DerivationMismatch);
            },
        }
        match self.ledger.allocate(payer, mint, rec.mint_account_bytes, handler_program) {
            Ok(_) => {},
            Err(e) => {
                return Err(e);
            },
        }
        let mut accounts: Vec<AccountRef> = Vec::new();
        accounts.push(AccountRef { address: *mint, is_signer: false, is_writable: true });
        proof {
            assert(accounts@.map_values(|a: AccountRef| a@) =~= seq![(mint@, false, true)]);
        }
        Ok(relay(*handler_program, &init_mint_tag_bytes(), mint_data, accounts, Credential::Caller))
    }

    /// Why initializing the token account of `authority` in the mint of
    /// `nonce` at `account` for handler `h`, paid by `payer`, is refused.
    pub open spec fn token_account_init_error(&self, h: Seq<u8>, account: Seq<u8>, payer: Seq<u8>, authority: Seq<u8>, nonce: u64) -> Option<BrokerError> {
        match self.registry.record_of(h) {
            None => Some(BrokerError::NotRegistered),
            Some(rec) => match derivation(token_seeds(le_bytes(nonce as nat, 8), authority), self.program_id@) {
                Some((a, _)) if a == account => self.ledger.allocation_error(payer, account, rec.token_account_bytes),
                _ => Some(BrokerError::DerivationMismatch),
            },
        }
    }

    /// Allocates the token account of `authority` in the mint of `mint_nonce`
    /// for handler `handler_program`, paid by `payer`, and returns the call that
    /// lets the handler write it. `token_account` is the address the caller
    /// declares.
    pub fn initialize_token_account(
        &mut self,
        handler_program: &Address,
        token_account: &Address,
        payer: &Address,
        authority: &Address,
        mint_nonce: u64,
        token_account_data: &Vec<u8>,
    ) -> (r: Result<RelayCall, BrokerError>)
        ensures
            old(self).token_account_init_error(handler_program@, token_account@, payer@, authority@, mint_nonce) matches Some(e)
                ==> r is Err && r->Err_0 == e && *final(self) == *old(self),
            old(self).token_account_init_error(handler_program@, token_account@, payer@, authority@, mint_nonce) is None ==> {
                &&& r is Ok
                &&& r->Ok_0@ == init_token_account_call(handler_program@, token_account@, authority@, mint_nonce, token_account_data@)
                &&& old(self).allocated_for(*final(self), handler_program@, token_account@, payer@,
                    old(self).registry.record_of(handler_program@)->Some_0.token_account_bytes)
            },
    {
        let rec = match self.registry.lookup(handler_program) {
            Ok(rec) => rec,
            Err(e) => {
                return Err(e);
            },
        };
        let tag = token_tag_bytes();
        let keys = two_keys(u64_le_bytes(mint_nonce), authority.to_vec());
        match derive_address(&tag, &keys, &self.program_id) {
            Some((a, _)) => {
                if a != *token_account {
                    return Err(BrokerError::DerivationMismatch);
                }
            },
            None => {
                return Err(BrokerError::DerivationMismatch);
            },
        }
        match self.ledger.allocate(payer, token_account, rec.token_account_bytes, handler_program) {
            Ok(_) => {},
            Err(e) => {
                return Err(e);
            },
        }
        let mut accounts: Vec<AccountRef> = Vec::new();
        accounts.push(AccountRef { address: *token_account, is_signer: false, is_writable: true });
        proof {
            assert(accounts@.map_values(|a: AccountRef| a@) =~= seq![(token_account@, false, true)]);
        }
        let payload = token_account_payload(authority, mint_nonce, token_account_data);
        let call = relay(*handler_program, &init_token_account_tag_bytes(), &payload, accounts, Credential::Caller);
        proof {
            assert(call@.data =~= init_token_account_tag() + authority@ + le_bytes(mint_nonce as nat, 8) + token_account_data@);
        }
        Ok(call)
    }

    /// The address the broker signs as for handler `h`: its record's address.
    pub open spec fn signer_of(&self, h: Seq<u8>) -> Option<Seq<u8>> {
        created_address(handler_seeds(h).push(seq![self.registry.record_of(h)->Some_0.pda_bump]), self.program_id@)
    }

    /// Why minting into `to` of the mint at `mint` through handler `h`,
    /// authorized by `authority`, is refused, if it is.
    pub open spec fn mint_to_error(&self, h: Seq<u8>, to: Seq<u8>, mint: Seq<u8>, authority: Seq<u8>) -> Option<BrokerError> {
        let to_data = self.ledger.data_of(to);
        let mint_data = self.ledger.data_of(mint);
        if self.registry.record_of(h) is None {
            Some(BrokerError::NotRegistered)
        } else if self.ledger.owner_of(to) != h || self.ledger.owner_of(mint) != h {
            Some(BrokerError::OwnershipMismatch)
        } else if to_data.len() < 48 {
            Some(BrokerError::LayoutMismatch)
        } else if !(derivation(mint_seeds(to_data.subrange(40, 48)), self.program_id@) matches Some((a, _)) && a == mint) {
            Some(BrokerError::DerivationMismatch)
        } else if mint_data.len() < 40 {
            Some(BrokerError::LayoutMismatch)
        } else if mint_data.subrange(8, 40) != authority {
            Some(BrokerError::CredentialMismatch)
        } else if self.signer_of(h) is None {
            Some(BrokerError::DerivationMismatch)
        } else {
            None
        }
    }

    /// The call that mints `amount` into `to` of `mint` through handler `h`.
    pub open spec fn mint_to_call(&self, h: Seq<u8>, to: Seq<u8>, mint: Seq<u8>, amount: u64) -> RelayView {
        RelayView {
            program: h,
            accounts: seq![(mint, false, true), (to, false, true), (self.signer_of(h)->Some_0, true, false)],
            data: mint_to_tag() + le_bytes(amount as nat, 8),
            broker_seeds: Some(handler_seeds(h).push(seq![self.registry.record_of(h)->Some_0.pda_bump])),
        }
    }

    /// Checks that `to` and `mint` belong to handler `handler_program`, that
    /// `mint` is the mint that `to` records, and that `mint_authority` is the
    /// authority that `mint` records; then returns the call, signed by the
    /// broker for the handler, that mints `amount` into `to`.
    pub fn mint_to(&self, handler_program: &Address, to: &Address, mint: &Address, mint_authority: &Address, amount: u64) -> (r: Result<RelayCall, BrokerError>)
        ensures
            self.mint_to_error(handler_program@, to@, mint@, mint_authority@) matches Some(e) ==> r is Err && r->Err_0 == e,
            self.mint_to_error(handler_program@, to@, mint@, mint_authority@) is None
                ==> r is Ok && r->Ok_0@ == self.mint_to_call(handler_program@, to@, mint@, amount),
            self.registry.record_of(handler_program@) is Some && self.ledger.owner_of(to@) != self.ledger.owner_of(mint@)
                ==> r is Err && r->Err_0 == BrokerError::OwnershipMismatch,
            r is Ok ==> self.ledger.owner_of(to@) == handler_program@ && self.ledger.owner_of(mint@) == handler_program@,
            r is Ok ==> self.ledger.data_of(mint@).len() >= 40 && self.ledger.data_of(mint@).subrange(8, 40) == mint_authority@,
    {
        let rec = match self.registry.lookup(handler_program) {
            Ok(rec) => rec,
            Err(e) => {
                return Err(e);
            },
        };
        let to_owner = self.ledger.owner(to);
        let mint_owner = self.ledger.owner(mint);
        if to_owner != *handler_program || mint_owner != *handler_program {
            return Err(BrokerError::OwnershipMismatch);
        }
        let to_data = self.ledger.data(to);
        if to_data.len() < 48 {
            return Err(BrokerError::LayoutMismatch);
        }
        let nonce = copy_range(&to_data, 40, 48);
        let keys = one_key(nonce);
        match derive_address(&mint_tag_bytes(), &keys, &self.program_id) {
            Some((a, _)) => {
                if a != *mint {
                    return Err(BrokerError::DerivationMismatch);
                }
            },
            None => {
                return Err(BrokerError::DerivationMismatch);
            },
        }
        let mint_data = self.ledger.data(mint);
        if mint_data.len() < 40 {
            return Err(BrokerError::LayoutMismatch);
        }
        if !holds_at(&mint_data, 8, mint_authority) {
            return Err(BrokerError::CredentialMismatch);
        }
        let seeds = handler_signer_seeds(handler_program, rec.pda_bump);
        let signer = match create_program_address(&seeds, &self.program_id) {
            Some(a) => a,
            None => {
                return Err(BrokerError::DerivationMismatch);
            },
        };
        let mut accounts: Vec<AccountRef> = Vec::new();
        accounts.push(AccountRef { address: *mint, is_signer: false, is_writable: true });
        accounts.push(AccountRef { address: *to, is_signer: false, is_writable: true });
        accounts.push(AccountRef { address: signer, is_signer: true, is_writable: false });
        proof {
            assert(accounts@.map_values(|a: AccountRef| a@) =~= seq![
                (mint@, false, true),
                (to@, false, true),
                (signer@, true, false),
            ]);
        }
        Ok(relay(*handler_program, &mint_to_tag_bytes(), &u64_le_bytes(amount), accounts, Credential::Broker(seeds)))
    }

    /// Why moving from `from` to `to` through handler `h`, authorized by
    /// `authority`, is refused, if it is.
    pub open spec fn transfer_error(&self, h: Seq<u8>, from: Seq<u8>, to: Seq<u8>, authority: Seq<u8>) -> Option<BrokerError> {
        let from_data = self.ledger.data_of(from);
        if self.registry.record_of(h) is None {
            Some(BrokerError::NotRegistered)
        } else if self.ledger.owner_of(from) != h || self.ledger.owner_of(to) != h {
            Some(BrokerError::OwnershipMismatch)
        } else if from_data.len() < 40 {
            Some(BrokerError::LayoutMismatch)
        } else if from_data.subrange(8, 40) != authority {
            Some(BrokerError::CredentialMismatch)
        } else if self.signer_of(h) is None {
            Some(BrokerError::DerivationMismatch)
        } else {
            None
        }
    }

    /// The call that moves `amount` from `from` to `to` through handler `h`.
    pub open spec fn transfer_call(&self, h: Seq<u8>, from: Seq<u8>, to: Seq<u8>, amount: u64, extra: Seq<u8>) -> RelayView {
        RelayView {
            program: h,
            accounts: seq![(from, false, true), (to, false, true), (self.signer_of(h)->Some_0, true, false)],
            data: transfer_tag() + le_bytes(amount as nat, 8) + extra,
            broker_seeds: Some(handler_seeds(h).push(seq![self.registry.record_of(h)->Some_0.pda_bump])),
        }
    }

    /// Checks that `from` and `to` belong to handler `handler_program` and
    /// that `authority` is the authority that `from` records; then returns the
    /// call, signed by the broker for the handler, that moves `amount`.
    pub fn transfer(&self, handler_program: &Address, from: &Address, to: &Address, authority: &Address, amount: u64, transfer_data: &Vec<u8>) -> (r: Result<RelayCall, BrokerError>)
        ensures
            self.transfer_error(handler_program@, from@, to@, authority@) matches Some(e) ==> r is Err && r->Err_0 == e,
            self.transfer_error(handler_program@, from@, to@, authority@) is None
                ==> r is Ok && r->Ok_0@ == self.transfer_call(handler_program@, from@, to@, amount, transfer_data@),
            r is Ok ==> self.ledger.owner_of(from@) == handler_program@ && self.ledger.owner_of(to@) == handler_program@,
            r is Ok ==> self.ledger.data_of(from@).len() >= 40 && self.ledger.data_of(from@).subrange(8, 40) == authority@,
    {
        let rec = match self.registry.lookup(handler_program) {
            Ok(rec) => rec,
            Err(e) => {
                return Err(e);
            },
        };
        let from_owner = self.ledger.owner(from);
        let to_owner = self.ledger.owner(to);
        if from_owner != *handler_program || to_owner != *handler_program {
            return Err(BrokerError::OwnershipMismatch);
        }
        let from_data = self.ledger.data(from);
        if from_data.len() < 40 {
            return Err(BrokerError::LayoutMismatch);
        }
        if !holds_at(&from_data, 8, authority) {
            return Err(BrokerError::CredentialMismatch);
        }
        let seeds = handler_signer_seeds(handler_program, rec.pda_bump);
        let signer = match create_program_address(&seeds, &self.program_id) {
            Some(a) => a,
            None => {
                return Err(BrokerError::DerivationMismatch);
            },
        };
        let mut accounts: Vec<AccountRef> = Vec::new();
        accounts.push(AccountRef { address: *from, is_signer: false, is_writable: true });
        accounts.push(AccountRef { address: *to, is_signer: false, is_writable: true });
        accounts.push(AccountRef { address: signer, is_signer: true, is_writable: false });
        proof {
            assert(accounts@.map_values(|a: AccountRef| a@) =~= seq![
                (from@, false, true),
                (to@, false, true),
                (signer@, true, false),
            ]);
        }
        let payload = transfer_payload(amount, transfer_data);
        let call = relay(*handler_program, &transfer_tag_bytes(), &payload, accounts, Credential::Broker(seeds));
        proof {
            assert(call@.data =~= transfer_tag() + le_bytes(amount as nat, 8) + transfer_data@);
        }
        Ok(call)
    }

    /// The record of handler `handler_program`.
    pub fn lookup(&self, handler_program: &Address) -> (r: Result<TokenHandler, BrokerError>)
        ensures
            r matches Ok(rec) ==> self.registry.record_of(handler_program@) == Some(rec),
            r is Err ==> self.registry.record_of(handler_program@) is None && r == Err::<TokenHandler, BrokerError>(BrokerError::NotRegistered),
    {
        self.registry.lookup(handler_program)
    }
}

/// Registering a handler again succeeds wherever the first registration did,
/// keeps the bump, and leaves the record with the second sizes only.
pub proof fn lemma_reregistration_overwrites(
    b0: Broker,
    b1: Broker,
    b2: Broker,
    h: Seq<u8>,
    first: (u32, u32),
    second: (u32, u32),
    rec1: TokenHandler,
    rec2: TokenHandler,
)
    requires
        b0.register_error(h) is None,
        b0.registered(b1, h, first.0, first.1, rec1),
    ensures
        b1.register_error(h) is None,
        b1.registered(b2, h, second.0, second.1, rec2) ==> {
            &&& b2.registry.record_of(h) == Some(rec2)
            &&& rec2.token_account_bytes == second.0
            &&& rec2.mint_account_bytes == second.1
            &&& rec2.pda_bump == rec1.pda_bump
        },
{
}

/// Once the mint of a nonce has been allocated, initializing it again is
/// refused whoever pays: at its own address because the region is owned,
/// at any other address because it is not the derivation.
pub proof fn lemma_mint_nonce_used_once(
    b0: Broker,
    b1: Broker,
    h: Seq<u8>,
    mint: Seq<u8>,
    payer: Seq<u8>,
    nonce: u64,
    other_mint: Seq<u8>,
    other_payer: Seq<u8>,
)
    requires
        b0.mint_init_error(h, mint, payer, nonce) is None,
        b0.allocated_for(b1, h, mint, payer, b0.registry.record_of(h)->Some_0.mint_account_bytes),
    ensures
        b1.mint_init_error(h, other_mint, other_payer, nonce) is Some,
        b1.mint_init_error(h, mint, other_payer, nonce) == Some(BrokerError::OwnershipMismatch),
{
    let size = b0.registry.record_of(h)->Some_0.mint_account_bytes;
    assert(b1.ledger.lamports_of(mint) == funding_for(size));
    assert(!b1.ledger.is_unallocated(mint));
}

/// Whether every region that `call` marks as signing is `signer`, the
/// broker's own record of the handler, and the broker vouches for it.
pub open spec fn signed_only_by_broker(call: RelayView, signer: Seq<u8>) -> bool {
    forall|i: int| 0 <= i < call.accounts.len() && (#[trigger] call.accounts[i]).1
        ==> call.accounts[i].0 == signer && call.broker_seeds is Some
}

/// No call that the broker builds marks a region as signing but the broker's
/// own record of the handler, for which the broker itself signs: whatever
/// the caller signed never reaches handler code as a signature.
pub proof fn lemma_relayed_calls_carry_no_caller_signature(
    b: Broker,
    h: Seq<u8>,
    region: Seq<u8>,
    other: Seq<u8>,
    authority: Seq<u8>,
    nonce: u64,
    amount: u64,
    data: Seq<u8>,
)
    ensures
        signed_only_by_broker(b.mint_to_call(h, other, region, amount), b.signer_of(h)->Some_0),
        signed_only_by_broker(b.transfer_call(h, region, other, amount, data), b.signer_of(h)->Some_0),
        signed_only_by_broker(init_mint_call(h, region, data), b.signer_of(h)->Some_0),
        signed_only_by_broker(init_token_account_call(h, region, authority, nonce, data), b.signer_of(h)->Some_0),
{
}

/// The mint-to call that the broker builds, run by the basic handler on the
/// same regions, adds exactly the amount to the balance of the token account
/// and to the supply of the mint.
pub proof fn lemma_relayed_mint_to_adds(
    b: Broker,
    post: Ledger,
    h: Seq<u8>,
    to: Seq<u8>,
    mint: Seq<u8>,
    authority: Seq<u8>,
    amount: u64,
    r: Result<(), BrokerError>,
)
    requires
        b.mint_to_error(h, to, mint, authority) is None,
        handler::mint_to_error(b.ledger, h, mint, to, amount as nat) is None,
        process_outcome(b.ledger, post, h, b.mint_to_call(h, to, mint, amount), r),
    ensures
        r is Ok,
        balance_of(post, to) == balance_of(b.ledger, to) + amount,
        supply_of(post, mint) == supply_of(b.ledger, mint) + amount,
{
    let d = b.mint_to_call(h, to, mint, amount).data;
    lemma_u64_round_trip(amount);
    assert(d.subrange(0, 8) =~= mint_to_tag());
    assert(d.subrange(8, 16) =~= le_bytes(amount as nat, 8));
    assert(init_mint_tag()[0] != mint_to_tag()[0]);
    assert(init_token_account_tag()[0] != mint_to_tag()[0]);
}

} // verus!
