use vstd::prelude::*;
use solana_program::pubkey::Pubkey;
use crate::bytes::{copy_bytes, push_bytes};

verus! {

/// Longest seed list that a derivation accepts.
pub const MAX_SEEDS: usize = 16;

/// Longest single seed that a derivation accepts.
pub const MAX_SEED_LEN: usize = 32;

/// A 32-byte identity: a program, a signer, or a storage region.
#[derive(Clone, Copy, Debug)]
pub struct Address {
    pub bytes: [u8; 32],
}

impl View for Address {
    type V = Seq<u8>;

    open spec fn view(&self) -> Seq<u8> {
        self.bytes@
    }
}

impl PartialEq for Address {
    fn eq(&self, o: &Address) -> (r: bool) {
        let mut i: usize = 0;
        while i < 32
            invariant
                0 <= i <= 32,
                self.bytes@.len() == 32,
                o.bytes@.len() == 32,
                forall|j: int| 0 <= j < i ==> self.bytes@[j] == o.bytes@[j],
            decreases 32 - i,
        {
            if self.bytes[i] != o.bytes[i] {
                return false;
            }
            i = i + 1;
        }
        proof {
            assert(self.bytes@ =~= o.bytes@);
        }
        true
    }
}

impl vstd::std_specs::cmp::PartialEqSpecImpl for Address {
    open spec fn obeys_eq_spec() -> bool {
        true
    }

    open spec fn eq_spec(&self, o: &Address) -> bool {
        self@ == o@
    }
}

impl Eq for Address {
}

impl Address {
    pub fn new(bytes: [u8; 32]) -> (r: Address)
        ensures
            r.bytes == bytes,
    {
        Address { bytes }
    }

    /// The 32 bytes of this address.
    pub fn to_vec(&self) -> (r: Vec<u8>)
        ensures
            r@ == self@,
    {
        let mut r: Vec<u8> = Vec::new();
        push_bytes(&mut r, self.bytes.as_slice());
        r
    }
}

/// The address that the runtime derives from `seeds` under `program`, or
/// `None` where the digest of the seeds lies on the curve of signing keys.
pub uninterp spec fn program_address_of(seeds: Seq<Seq<u8>>, program: Seq<u8>) -> Option<Seq<u8>>;

/// Whether a seed list is short enough, and each of its seeds short enough,
/// to be hashed at all.
pub open spec fn seeds_within_limits(seeds: Seq<Seq<u8>>) -> bool {
    seeds.len() <= MAX_SEEDS && forall|i: int| 0 <= i < seeds.len() ==> #[trigger] seeds[i].len() <= MAX_SEED_LEN
}

/// What `create_program_address` yields on a seed list.
pub open spec fn created_address(seeds: Seq<Seq<u8>>, program: Seq<u8>) -> Option<Seq<u8>> {
    if seeds_within_limits(seeds) {
        program_address_of(seeds, program)
    } else {
        None
    }
}

/// Tries the bumps `b, b - 1, ..., 1` in turn, appended to `seeds` as one
/// last one-byte seed, and yields the first that gives an address.
pub open spec fn bump_search(seeds: Seq<Seq<u8>>, program: Seq<u8>, b: nat) -> Option<(Seq<u8>, u8)>
    decreases b,
{
    if b == 0 {
        None
    } else {
        match program_address_of(seeds.push(seq![b as u8]), program) {
            Some(a) => Some((a, b as u8)),
            None => bump_search(seeds, program, (b - 1) as nat),
        }
    }
}

/// The derived address of `seeds` under `program` and its bump: the highest
/// bump, at most 255, whose one-byte seed turns the list into an address.
pub open spec fn derivation(seeds: Seq<Seq<u8>>, program: Seq<u8>) -> Option<(Seq<u8>, u8)> {
    if seeds_within_limits(seeds.push(seq![0u8])) {
        bump_search(seeds, program, 255)
    } else {
        None
    }
}

pub open spec fn opt_view(r: Option<Address>) -> Option<Seq<u8>> {
    match r {
        Some(a) => Some(a@),
        None => None,
    }
}

pub open spec fn seeds_view(seeds: Seq<Vec<u8>>) -> Seq<Seq<u8>> {
    seeds.map_values(|s: Vec<u8>| s@)
}

/// Relies on `Pubkey::create_program_address`: it refuses more than sixteen
/// seeds or a seed longer than thirty-two bytes, and otherwise hashes the seeds
/// with the program, refusing a digest that is a point on the curve.
#[verifier::external_body]
pub(crate) fn create_program_address(seeds: &Vec<Vec<u8>>, program: &Address) -> (r: Option<Address>)
    ensures
        !seeds_within_limits(seeds_view(seeds@)) ==> r is None,
        seeds_within_limits(seeds_view(seeds@)) ==> opt_view(r) == program_address_of(seeds_view(seeds@), program@),
{
    let refs: Vec<&[u8]> = seeds.iter().map(|s| s.as_slice()).collect();
    let id = Pubkey::new_from_array(program.bytes);
    match Pubkey::create_program_address(&refs, &id) {
        Ok(k) => Some(Address { bytes: k.to_bytes() }),
        Err(_) => None,
    }
}

/// Relies on `Pubkey::try_find_program_address`: off chain it appends the bumps
/// 255 down to 1 to the seeds and returns the first address that
/// `create_program_address` gives, stopping at a length error.
#[verifier::external_body]
pub(crate) fn try_find_program_address(seeds: &Vec<Vec<u8>>, program: &Address) -> (r: Option<(Address, u8)>)
    ensures
        r matches Some((a, b)) ==> derivation(seeds_view(seeds@), program@) == Some((a@, b)),
        r is None ==> derivation(seeds_view(seeds@), program@) is None,
{
    let refs: Vec<&[u8]> = seeds.iter().map(|s| s.as_slice()).collect();
    let id = Pubkey::new_from_array(program.bytes);
    Pubkey::try_find_program_address(&refs, &id).map(|(k, b)| (Address { bytes: k.to_bytes() }, b))
}

/// The seed list of a namespace tag followed by the keys.
pub open spec fn tagged_seeds(tag: Seq<u8>, keys: Seq<Seq<u8>>) -> Seq<Seq<u8>> {
    seq![tag] + keys
}

fn build_seeds(tag: &Vec<u8>, keys: &Vec<Vec<u8>>) -> (r: Vec<Vec<u8>>)
    ensures
        seeds_view(r@) == tagged_seeds(tag@, seeds_view(keys@)),
{
    let mut r: Vec<Vec<u8>> = Vec::new();
    r.push(copy_bytes(tag));
    let mut i: usize = 0;
    while i < keys.len()
        invariant
            0 <= i <= keys@.len(),
            r@.len() == i + 1,
            r@[0]@ == tag@,
            forall|j: int| 0 <= j < i ==> #[trigger] r@[j + 1]@ == keys@[j]@,
        decreases keys@.len() - i,
    {
        let k = copy_bytes(&keys[i]);
        r.push(k);
        i = i + 1;
    }
    proof {
        let want = tagged_seeds(tag@, seeds_view(keys@));
        assert forall|j: int| 0 <= j < want.len() implies seeds_view(r@)[j] == want[j] by {
            if j > 0 {
                assert(r@[(j - 1) + 1]@ == keys@[j - 1]@);
            }
        }
        assert(seeds_view(r@) =~= want);
    }
    r
}

/// Derives the address of the storage named by `tag` and `keys` under
/// `program`, with its bump.
pub fn derive_address(tag: &Vec<u8>, keys: &Vec<Vec<u8>>, program: &Address) -> (r: Option<(Address, u8)>)
    ensures
        r matches Some((a, b)) ==> derivation(tagged_seeds(tag@, seeds_view(keys@)), program@) == Some((a@, b)),
        r is None ==> derivation(tagged_seeds(tag@, seeds_view(keys@)), program@) is None,
{
    let seeds = build_seeds(tag, keys);
    try_find_program_address(&seeds, program)
}

/// Whether `address` is what `tag`, `keys` and the bump derive under `program`.
pub open spec fn derives_to(address: Seq<u8>, tag: Seq<u8>, keys: Seq<Seq<u8>>, program: Seq<u8>, bump: u8) -> bool {
    created_address(tagged_seeds(tag, keys).push(seq![bump]), program) == Some(address)
}

/// Recomputes the derivation of `tag`, `keys` and `bump` under `program` and
/// accepts `address` only where it is that derivation.
pub fn verify_address(address: &Address, tag: &Vec<u8>, keys: &Vec<Vec<u8>>, program: &Address, bump: u8) -> (r: bool)
    ensures
        r == derives_to(address@, tag@, seeds_view(keys@), program@, bump),
{
    let mut seeds = build_seeds(tag, keys);
    let ghost before = seeds_view(seeds@);
    let mut last: Vec<u8> = Vec::new();
    last.push(bump);
    seeds.push(last);
    proof {
        assert(last@ =~= seq![bump]);
        assert(seeds_view(seeds@) =~= before.push(seq![bump]));
    }
    let created = create_program_address(&seeds, program);
    match created {
        Some(a) => a == *address,
        None => false,
    }
}

proof fn lemma_bump_search_found(seeds: Seq<Seq<u8>>, program: Seq<u8>, b: nat)
    requires
        b <= 255,
        bump_search(seeds, program, b) is Some,
    ensures
        ({
            let (a, bump) = bump_search(seeds, program, b)->0;
            1 <= bump && program_address_of(seeds.push(seq![bump]), program) == Some(a)
        }),
    decreases b,
{
    if b > 0 {
        match program_address_of(seeds.push(seq![b as u8]), program) {
            Some(a) => {},
            None => lemma_bump_search_found(seeds, program, (b - 1) as nat),
        }
    }
}

/// `address` with bit `k` of byte `i` flipped.
pub open spec fn flip_bit(address: Seq<u8>, i: int, k: u8) -> Seq<u8> {
    address.update(i, address[i] ^ (1u8 << k))
}

proof fn lemma_flip_changes(x: u8, k: u8)
    requires
        k < 8,
    ensures
        x ^ (1u8 << k) != x,
{
    assert(x ^ (1u8 << k) != x) by (bit_vector)
        requires k < 8;
}

/// Whatever derivation succeeds verifies against its own address and bump,
/// and no address that differs from it in a single bit verifies.
pub proof fn lemma_derivation_verifies(tag: Seq<u8>, keys: Seq<Seq<u8>>, program: Seq<u8>)
    requires
        derivation(tagged_seeds(tag, keys), program) is Some,
    ensures
        ({
            let (a, bump) = derivation(tagged_seeds(tag, keys), program)->0;
            &&& derives_to(a, tag, keys, program, bump)
            &&& forall|i: int, k: u8| 0 <= i < a.len() && k < 8
                ==> !derives_to(#[trigger] flip_bit(a, i, k), tag, keys, program, bump)
        }),
{
    let seeds = tagged_seeds(tag, keys);
    let (a, bump) = derivation(seeds, program)->0;
    lemma_bump_search_found(seeds, program, 255);
    let with_zero = seeds.push(seq![0u8]);
    let with_bump = seeds.push(seq![bump]);
    assert forall|j: int| 0 <= j < with_bump.len() implies #[trigger] with_bump[j].len() <= MAX_SEED_LEN by {
        assert(with_bump[j].len() == with_zero[j].len());
    }
    assert(seeds_within_limits(with_bump));
    assert forall|i: int, k: u8| 0 <= i < a.len() && k < 8
        implies !derives_to(#[trigger] flip_bit(a, i, k), tag, keys, program, bump) by {
        lemma_flip_changes(a[i], k);
        assert(flip_bit(a, i, k)[i] != a[i]);
    }
}

} // verus!
