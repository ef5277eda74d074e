use vstd::prelude::*;
use solana_program::rent::Rent;
use solana_program::system_program;
use crate::address::Address;
use crate::bytes::{copy_bytes, zeroed};
use crate::error::BrokerError;
use crate::keyed::{key_index, lemma_key_index_bounds, lemma_key_index_found, lemma_key_index_push};

verus! {

/// The identity of the allocator subsystem, which owns every region that no
/// one has allocated yet.
pub open spec fn system_id() -> Seq<u8> {
    Seq::new(32, |i: int| 0u8)
}

/// Relies on `system_program::id`: the system program's identity, whose
/// 32 bytes are all zero.
#[verifier::external_body]
pub(crate) fn system_program_id() -> (r: Address)
    ensures
        r@ == system_id(),
{
    Address { bytes: system_program::id().to_bytes() }
}

/// The least balance that keeps a region of `size` bytes alive indefinitely
/// under the default rent: twice a year's rent of 3480 lamports for each
/// byte, counting 128 bytes of overhead per region.
pub open spec fn rent_minimum_of(size: u32) -> int {
    2 * 3480 * (128 + size)
}

/// Relies on `Rent::minimum_balance` of `Rent::default()`: it multiplies the
/// overhead of 128 bytes plus `size` by 3480 lamports per byte-year and by
/// the exemption threshold 2.0, a product that a `f64` holds exactly here.
#[verifier::external_body]
fn rent_exempt_minimum(size: u32) -> (r: u64)
    ensures
        r == rent_minimum_of(size),
{
    Rent::default().minimum_balance(size as usize)
}

/// What allocating a region of `size` bytes costs the payer: the rent-exempt
/// balance, and at least one.
pub open spec fn funding_for(size: u32) -> u64 {
    if rent_minimum_of(size) == 0 { 1 } else { rent_minimum_of(size) as u64 }
}

/// One storage region: who owns it, what funds it, what it holds.
#[derive(Debug)]
pub struct Region {
    pub address: Address,
    pub owner: Address,
    pub lamports: u64,
    pub data: Vec<u8>,
    pub executable: bool,
}

pub struct RegionView {
    pub owner: Seq<u8>,
    pub lamports: u64,
    pub data: Seq<u8>,
    pub executable: bool,
}

impl View for Region {
    type V = RegionView;

    open spec fn view(&self) -> RegionView {
        RegionView { owner: self.owner@, lamports: self.lamports, data: self.data@, executable: self.executable }
    }
}

impl Region {
    pub fn new(address: Address, owner: Address, lamports: u64, data: Vec<u8>, executable: bool) -> (r: Region)
        ensures
            r.address == address,
            r@ == (RegionView { owner: owner@, lamports, data: data@, executable }),
    {
        Region { address, owner, lamports, data, executable }
    }
}

/// Every region the runtime knows of, by address.
pub struct Ledger {
    pub regions: Vec<Region>,
}

impl Ledger {
    pub open spec fn keys(&self) -> Seq<Seq<u8>> {
        self.regions@.map_values(|r: Region| r.address@)
    }

    /// The region at `k`, if the ledger holds one.
    pub open spec fn region_of(&self, k: Seq<u8>) -> Option<RegionView> {
        let i = key_index(self.keys(), k);
        if i >= 0 { Some(self.regions@[i]@) } else { None }
    }

    pub open spec fn owner_of(&self, k: Seq<u8>) -> Seq<u8> {
        match self.region_of(k) {
            Some(r) => r.owner,
            None => system_id(),
        }
    }

    pub open spec fn lamports_of(&self, k: Seq<u8>) -> u64 {
        match self.region_of(k) {
            Some(r) => r.lamports,
            None => 0,
        }
    }

    pub open spec fn data_of(&self, k: Seq<u8>) -> Seq<u8> {
        match self.region_of(k) {
            Some(r) => r.data,
            None => seq![],
        }
    }

    /// Nothing lives at `k` yet: the allocator owns it, unfunded and empty.
    pub open spec fn is_unallocated(&self, k: Seq<u8>) -> bool {
        self.owner_of(k) == system_id() && self.lamports_of(k) == 0 && self.data_of(k).len() == 0
    }

    /// Why allocating `size` bytes at `target` for `payer` is refused, if it is.
    pub open spec fn allocation_error(&self, payer: Seq<u8>, target: Seq<u8>, size: u32) -> Option<BrokerError> {
        if size == 0 {
            Some(BrokerError::InvalidSize)
        } else if !self.is_unallocated(target) {
            Some(BrokerError::OwnershipMismatch)
        } else if self.lamports_of(payer) < funding_for(size) {
            Some(BrokerError::InsufficientFunds)
        } else {
            None
        }
    }

    /// `post` is this ledger after `payer` funded a fresh region of `size`
    /// zero bytes at `target` for `owner`, and nothing else changed.
    pub open spec fn allocated(&self, post: Ledger, payer: Seq<u8>, target: Seq<u8>, size: u32, owner: Seq<u8>) -> bool {
        &&& post.region_of(target) == Some(RegionView {
            owner: owner,
            lamports: funding_for(size),
            data: Seq::new(size as nat, |i: int| 0u8),
            executable: false,
        })
        &&& post.lamports_of(payer) == self.lamports_of(payer) - funding_for(size)
        &&& post.owner_of(payer) == self.owner_of(payer)
        &&& post.data_of(payer) == self.data_of(payer)
        &&& forall|k: Seq<u8>| k != payer && k != target ==> #[trigger] post.region_of(k) == self.region_of(k)
    }

    /// `post` is this ledger with the data of the region at `k` replaced by
    /// `data`, and nothing else changed.
    pub open spec fn rewritten(&self, post: Ledger, k: Seq<u8>, data: Seq<u8>) -> bool {
        &&& self.region_of(k) matches Some(r) && post.region_of(k) == Some(RegionView { data: data, ..r })
        &&& forall|k2: Seq<u8>| k2 != k ==> #[trigger] post.region_of(k2) == self.region_of(k2)
    }

    pub fn new() -> (r: Ledger)
        ensures
            forall|k: Seq<u8>| #[trigger] r.region_of(k) is None,
    {
        Ledger { regions: Vec::new() }
    }

    /// Position of the region at `k`.
    pub fn find(&self, k: &Address) -> (r: Option<usize>)
        ensures
            r matches Some(i) ==> i == key_index(self.keys(), k@) && i < self.regions@.len(),
            r is None ==> key_index(self.keys(), k@) == -1,
    {
        let mut i: usize = self.regions.len();
        while i > 0
            invariant
                i <= self.regions@.len(),
                forall|j: int| i <= j < self.regions@.len() ==> self.keys()[j] != k@,
            decreases i,
        {
            i = i - 1;
            if self.regions[i].address == *k {
                proof {
                    lemma_key_index_found(self.keys(), k@, i as int);
                }
                return Some(i);
            }
        }
        proof {
            lemma_key_index_found(self.keys(), k@, -1);
        }
        None
    }

    /// The region at `k`, if the ledger holds one.
    pub fn get(&self, k: &Address) -> (r: Option<&Region>)
        ensures
            r matches Some(g) ==> self.region_of(k@) == Some(g@) && g.address@ == k@,
            r is None ==> self.region_of(k@) is None,
    {
        match self.find(k) {
            Some(i) => {
                proof {
                    lemma_key_index_bounds(self.keys(), k@);
                }
                Some(&self.regions[i])
            },
            None => None,
        }
    }

    /// The owner of the region at `k`.
    pub fn owner(&self, k: &Address) -> (r: Address)
        ensures
            r@ == self.owner_of(k@),
    {
        match self.get(k) {
            Some(region) => region.owner,
            None => system_program_id(),
        }
    }

    /// A copy of what the region at `k` holds.
    pub fn data(&self, k: &Address) -> (r: Vec<u8>)
        ensures
            r@ == self.data_of(k@),
    {
        match self.get(k) {
            Some(region) => copy_bytes(&region.data),
            None => Vec::new(),
        }
    }

    /// Places `region` at its address, replacing what stood there.
    pub fn put(&mut self, region: Region)
        ensures
            final(self).region_of(region.address@) == Some(region@),
            forall|k: Seq<u8>| k != region.address@ ==> #[trigger] final(self).region_of(k) == old(self).region_of(k),
    {
        let ghost addr = region.address@;
        let ghost old_keys = self.keys();
        match self.find(&region.address) {
            Some(i) => {
                proof {
                    lemma_key_index_bounds(old_keys, addr);
                }
                self.regions.set(i, region);
                proof {
                    assert(self.keys() =~= old_keys);
                    assert forall|k: Seq<u8>| k != addr implies #[trigger] self.region_of(k) == old(self).region_of(k) by {
                        lemma_key_index_bounds(old_keys, k);
                    }
                }
            },
            None => {
                self.regions.push(region);
                proof {
                    assert(self.keys() =~= old_keys.push(addr));
                    assert forall|k: Seq<u8>| k != addr implies #[trigger] self.region_of(k) == old(self).region_of(k) by {
                        lemma_key_index_push(old_keys, addr, k);
                        lemma_key_index_bounds(old_keys, k);
                    }
                    lemma_key_index_push(old_keys, addr, addr);
                }
            },
        }
    }

    /// Replaces the data of the region at `k`.
    pub fn set_data(&mut self, k: &Address, data: Vec<u8>)
        requires
            old(self).region_of(k@) is Some,
        ensures
            old(self).rewritten(*final(self), k@, data@),
    {
        let replaced = match self.get(k) {
            Some(r) => Region {
                address: r.address,
                owner: r.owner,
                lamports: r.lamports,
                data,
                executable: r.executable,
            },
            None => {
                return;
            },
        };
        self.put(replaced);
    }

    /// Allocates `size` zero bytes at `target`, owned by `owner` and funded by
    /// `payer` with the rent-exempt balance; returns what the payer paid.
    pub fn allocate(&mut self, payer: &Address, target: &Address, size: u32, owner: &Address) -> (r: Result<u64, BrokerError>)
        ensures
            old(self).allocation_error(payer@, target@, size) matches Some(e) ==> r == Err::<u64, BrokerError>(e) && *final(self) == *old(self),
            old(self).allocation_error(payer@, target@, size) is None ==> r == Ok::<u64, BrokerError>(funding_for(size)),
            r is Ok ==> old(self).allocated(*final(self), payer@, target@, size, owner@),
    {
        if size == 0 {
            return Err(BrokerError::InvalidSize);
        }
        let system = system_program_id();
        let unallocated = match self.get(target) {
            Some(t) => t.owner == system && t.lamports == 0 && t.data.len() == 0,
            None => true,
        };
        if !unallocated {
            return Err(BrokerError::OwnershipMismatch);
        }
        let minimum = rent_exempt_minimum(size);
        let funding: u64 = if minimum == 0 { 1 } else { minimum };
        let paid = match self.get(payer) {
            Some(p) => {
                if p.lamports < funding {
                    return Err(BrokerError::InsufficientFunds);
                }
                Region {
                    address: p.address,
                    owner: p.owner,
                    lamports: p.lamports - funding,
                    data: copy_bytes(&p.data),
                    executable: p.executable,
                }
            },
            None => {
                return Err(BrokerError::InsufficientFunds);
            },
        };
        let ghost mid = *self;
        self.put(paid);
        let created = Region {
            address: *target,
            owner: *owner,
            lamports: funding,
            data: zeroed(size as usize),
            executable: false,
        };
        proof {
            assert(payer@ != target@);
        }
        self.put(created);
        Ok(funding)
    }
}

} // verus!
