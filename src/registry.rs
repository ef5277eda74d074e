use vstd::prelude::*;
use crate::address::Address;
use crate::bytes::{address_at, le_bytes, le_encode, le_value, lemma_u32_round_trip, push_bytes, read_le, starts_with};
use crate::error::BrokerError;
use crate::keyed::{key_index, lemma_key_index_bounds, lemma_key_index_found, lemma_key_index_push};

verus! {

/// What the broker keeps of a handler: the sizes of the regions it needs and
/// the bump of the address that the broker signs for it with.
#[derive(Clone, Copy, Debug)]
pub struct TokenHandler {
    pub handler_program: Address,
    pub token_account_bytes: u32,
    pub mint_account_bytes: u32,
    pub pda_bump: u8,
}

/// Length of a stored handler record.
pub const RECORD_LEN: usize = 49;

/// Kind tag at the start of a stored handler record.
pub open spec fn record_kind() -> Seq<u8> {
    seq![0x32u8, 0x7d, 0xc6, 0xc1, 0x31, 0x96, 0xfb, 0x2b]
}

fn record_kind_bytes() -> (r: Vec<u8>)
    ensures
        r@ == record_kind(),
{
    let mut r: Vec<u8> = Vec::new();
    r.push(0x32);
    r.push(0x7d);
    r.push(0xc6);
    r.push(0xc1);
    r.push(0x31);
    r.push(0x96);
    r.push(0xfb);
    r.push(0x2b);
    proof {
        assert(r@ =~= record_kind());
    }
    r
}

/// How a record is stored: the kind tag, the handler identity, the two sizes
/// in four little-endian bytes each, and the bump.
pub open spec fn record_bytes(rec: TokenHandler) -> Seq<u8> {
    record_kind() + rec.handler_program@ + le_bytes(rec.token_account_bytes as nat, 4)
        + le_bytes(rec.mint_account_bytes as nat, 4) + seq![rec.pda_bump]
}

impl TokenHandler {
    /// The stored form of this record.
    pub fn to_bytes(&self) -> (r: Vec<u8>)
        ensures
            r@ == record_bytes(*self),
    {
        let mut r = record_kind_bytes();
        push_bytes(&mut r, self.handler_program.bytes.as_slice());
        let t = le_encode(self.token_account_bytes as u64, 4);
        push_bytes(&mut r, t.as_slice());
        let m = le_encode(self.mint_account_bytes as u64, 4);
        push_bytes(&mut r, m.as_slice());
        r.push(self.pda_bump);
        proof {
            assert(r@ =~= record_bytes(*self));
        }
        r
    }

    /// Reads a stored record, if `data` holds one.
    pub fn from_bytes(data: &Vec<u8>) -> (r: Option<TokenHandler>)
        ensures
            r is Some <==> data@.len() >= RECORD_LEN && data@.subrange(0, 8) == record_kind(),
            r matches Some(rec) ==> {
                &&& rec.handler_program@ == data@.subrange(8, 40)
                &&& rec.token_account_bytes as nat == le_value(data@.subrange(40, 44))
                &&& rec.mint_account_bytes as nat == le_value(data@.subrange(44, 48))
                &&& rec.pda_bump == data@[48]
            },
    {
        if data.len() < RECORD_LEN || !starts_with(data, &record_kind_bytes()) {
            return None;
        }
        let t = read_le(data, 40, 4);
        let m = read_le(data, 44, 4);
        proof {
            crate::bytes::lemma_pow256_64();
        }
        Some(TokenHandler {
            handler_program: address_at(data, 8),
            token_account_bytes: t as u32,
            mint_account_bytes: m as u32,
            pda_bump: data[48],
        })
    }
}

/// The registered handlers, one record per handler identity.
pub struct Registry {
    pub records: Vec<TokenHandler>,
}

impl Registry {
    pub open spec fn keys(&self) -> Seq<Seq<u8>> {
        self.records@.map_values(|r: TokenHandler| r.handler_program@)
    }

    /// The record of the handler `h`, if one is registered.
    pub open spec fn record_of(&self, h: Seq<u8>) -> Option<TokenHandler> {
        let i = key_index(self.keys(), h);
        if i >= 0 { Some(self.records@[i]) } else { None }
    }

    pub fn new() -> (r: Registry)
        ensures
            forall|h: Seq<u8>| #[trigger] r.record_of(h) is None,
    {
        Registry { records: Vec::new() }
    }

    fn find(&self, h: &Address) -> (r: Option<usize>)
        ensures
            r matches Some(i) ==> i == key_index(self.keys(), h@) && i < self.records@.len(),
            r is None ==> key_index(self.keys(), h@) == -1,
    {
        let mut i: usize = self.records.len();
        while i > 0
            invariant
                i <= self.records@.len(),
                forall|j: int| i <= j < self.records@.len() ==> self.keys()[j] != h@,
            decreases i,
        {
            i = i - 1;
            if self.records[i].handler_program == *h {
                proof {
                    lemma_key_index_found(self.keys(), h@, i as int);
                }
                return Some(i);
            }
        }
        proof {
            lemma_key_index_found(self.keys(), h@, -1);
        }
        None
    }

    /// The record of the handler `h`.
    pub fn lookup(&self, h: &Address) -> (r: Result<TokenHandler, BrokerError>)
        ensures
            r matches Ok(rec) ==> self.record_of(h@) == Some(rec) && rec.handler_program@ == h@,
            r matches Err(e) ==> self.record_of(h@) is None && e == BrokerError::NotRegistered,
    {
        match self.find(h) {
            Some(i) => {
                proof {
                    lemma_key_index_bounds(self.keys(), h@);
                }
                Ok(self.records[i])
            },
            None => Err(BrokerError::NotRegistered),
        }
    }

    /// Stores `rec` as the record of its handler, replacing an earlier one.
    pub fn upsert(&mut self, rec: TokenHandler)
        ensures
            final(self).record_of(rec.handler_program@) == Some(rec),
            forall|h: Seq<u8>| h != rec.handler_program@ ==> #[trigger] final(self).record_of(h) == old(self).record_of(h),
    {
        let ghost key = rec.handler_program@;
        let ghost old_keys = self.keys();
        match self.find(&rec.handler_program) {
            Some(i) => {
                proof {
                    lemma_key_index_bounds(old_keys, key);
                }
                self.records.set(i, rec);
                proof {
                    assert(self.keys() =~= old_keys);
                    assert forall|h: Seq<u8>| h != key implies #[trigger] self.record_of(h) == old(self).record_of(h) by {
                        lemma_key_index_bounds(old_keys, h);
                    }
                }
            },
            None => {
                self.records.push(rec);
                proof {
                    assert(self.keys() =~= old_keys.push(key));
                    assert forall|h: Seq<u8>| h != key implies #[trigger] self.record_of(h) == old(self).record_of(h) by {
                        lemma_key_index_push(old_keys, key, h);
                        lemma_key_index_bounds(old_keys, h);
                    }
                    lemma_key_index_push(old_keys, key, key);
                }
            },
        }
    }
}

/// A stored record reads back as the record that was stored: every field
/// that `from_bytes` reads from `record_bytes(rec)` is the field of `rec`.
pub proof fn lemma_record_round_trip(rec: TokenHandler)
    ensures
        record_bytes(rec).len() == RECORD_LEN,
        record_bytes(rec).subrange(0, 8) == record_kind(),
        record_bytes(rec).subrange(8, 40) == rec.handler_program@,
        le_value(record_bytes(rec).subrange(40, 44)) == rec.token_account_bytes,
        le_value(record_bytes(rec).subrange(44, 48)) == rec.mint_account_bytes,
        record_bytes(rec)[48] == rec.pda_bump,
{
    let d = record_bytes(rec);
    lemma_u32_round_trip(rec.token_account_bytes);
    lemma_u32_round_trip(rec.mint_account_bytes);
    assert(d.subrange(0, 8) =~= record_kind());
    assert(d.subrange(8, 40) =~= rec.handler_program@);
    assert(d.subrange(40, 44) =~= le_bytes(rec.token_account_bytes as nat, 4));
    assert(d.subrange(44, 48) =~= le_bytes(rec.mint_account_bytes as nat, 4));
}

} // verus!
