use vstd::prelude::*;
use crate::address::Address;
use vstd::arithmetic::div_mod::lemma_breakdown;

verus! {

/// The first `n` bytes of `v` written little-endian.
pub open spec fn le_bytes(v: nat, n: nat) -> Seq<u8>
    decreases n,
{
    if n == 0 {
        seq![]
    } else {
        seq![(v % 256) as u8] + le_bytes(v / 256, (n - 1) as nat)
    }
}

/// The value of `s` read as a little-endian number.
pub open spec fn le_value(s: Seq<u8>) -> nat
    decreases s.len(),
{
    if s.len() == 0 {
        0
    } else {
        s[0] as nat + 256 * le_value(s.drop_first())
    }
}

/// Whether the first eight bytes of `data` are `tag`.
pub fn starts_with(data: &Vec<u8>, tag: &Vec<u8>) -> (r: bool)
    requires
        tag@.len() == 8,
        data@.len() >= 8,
    ensures
        r == (data@.subrange(0, 8) == tag@),
{
    let mut i: usize = 0;
    while i < 8
        invariant
            0 <= i <= 8,
            tag@.len() == 8,
            data@.len() >= 8,
            forall|j: int| 0 <= j < i ==> data@[j] == tag@[j],
        decreases 8 - i,
    {
        if data[i] != tag[i] {
            proof {
                assert(data@.subrange(0, 8)[i as int] != tag@[i as int]);
            }
            return false;
        }
        i = i + 1;
    }
    proof {
        assert(data@.subrange(0, 8) =~= tag@);
    }
    true
}

/// `n` zero bytes.
pub fn zeroed(n: usize) -> (r: Vec<u8>)
    ensures
        r@ == Seq::new(n as nat, |i: int| 0u8),
{
    let mut r: Vec<u8> = Vec::new();
    let mut i: usize = 0;
    while i < n
        invariant
            0 <= i <= n,
            r@ == Seq::new(i as nat, |j: int| 0u8),
        decreases n - i,
    {
        r.push(0u8);
        proof {
            assert(r@ =~= Seq::new((i + 1) as nat, |j: int| 0u8));
        }
        i = i + 1;
    }
    r
}

pub fn copy_bytes(src: &Vec<u8>) -> (r: Vec<u8>)
    ensures
        r@ == src@,
{
    let mut r: Vec<u8> = Vec::new();
    let mut i: usize = 0;
    while i < src.len()
        invariant
            0 <= i <= src@.len(),
            r@ == src@.subrange(0, i as int),
        decreases src@.len() - i,
    {
        r.push(src[i]);
        i = i + 1;
    }
    proof {
        assert(r@ =~= src@);
    }
    r
}

/// Appends `src` to `dst`.
pub fn push_bytes(dst: &mut Vec<u8>, src: &[u8])
    ensures
        final(dst)@ == old(dst)@ + src@,
{
    let mut i: usize = 0;
    while i < src.len()
        invariant
            0 <= i <= src@.len(),
            dst@ == old(dst)@ + src@.subrange(0, i as int),
        decreases src@.len() - i,
    {
        dst.push(src[i]);
        proof {
            assert(src@.subrange(0, i + 1) =~= src@.subrange(0, i as int).push(src@[i as int]));
        }
        i = i + 1;
    }
    proof {
        assert(src@.subrange(0, src@.len() as int) =~= src@);
    }
}

/// The bytes of `v` from `start` up to `end`.
pub fn copy_range(v: &Vec<u8>, start: usize, end: usize) -> (r: Vec<u8>)
    requires
        start <= end <= v@.len(),
    ensures
        r@ == v@.subrange(start as int, end as int),
{
    let mut r: Vec<u8> = Vec::new();
    let mut i: usize = start;
    while i < end
        invariant
            start <= i <= end <= v@.len(),
            r@ == v@.subrange(start as int, i as int),
        decreases end - i,
    {
        r.push(v[i]);
        proof {
            assert(v@.subrange(start as int, i + 1) =~= v@.subrange(start as int, i as int).push(v@[i as int]));
        }
        i = i + 1;
    }
    r
}

/// Whether the 32 bytes of `v` from `start` are `who`.
pub fn holds_at(v: &Vec<u8>, start: usize, who: &Address) -> (r: bool)
    requires
        start + 32 <= v@.len(),
    ensures
        r == (v@.subrange(start as int, start + 32) == who@),
{
    let n = v.len();
    let mut i: usize = 0;
    while i < 32
        invariant
            0 <= i <= 32,
            n == v@.len(),
            start + 32 <= v@.len(),
            who@.len() == 32,
            forall|j: int| 0 <= j < i ==> v@[start + j] == who@[j],
        decreases 32 - i,
    {
        if v[start + i] != who.bytes[i] {
            proof {
                assert(v@.subrange(start as int, start + 32)[i as int] != who@[i as int]);
            }
            return false;
        }
        i = i + 1;
    }
    proof {
        assert(v@.subrange(start as int, start + 32) =~= who@);
    }
    true
}

/// The first `n` little-endian bytes of `v`.
pub fn le_encode(v: u64, n: usize) -> (r: Vec<u8>)
    requires
        n <= 8,
    ensures
        r@ == le_bytes(v as nat, n as nat),
{
    let mut r: Vec<u8> = Vec::new();
    let mut rest: u64 = v;
    let mut i: usize = 0;
    while i < n
        invariant
            0 <= i <= n <= 8,
            r@ + le_bytes(rest as nat, (n - i) as nat) == le_bytes(v as nat, n as nat),
        decreases n - i,
    {
        let ghost before = r@;
        r.push((rest % 256) as u8);
        proof {
            assert(le_bytes(rest as nat, (n - i) as nat)
                == seq![(rest % 256) as u8] + le_bytes((rest / 256) as nat, (n - i - 1) as nat));
            assert(r@ + le_bytes((rest / 256) as nat, (n - i - 1) as nat)
                =~= before + le_bytes(rest as nat, (n - i) as nat));
        }
        rest = rest / 256;
        i = i + 1;
    }
    proof {
        assert(le_bytes(rest as nat, 0) =~= seq![]);
        assert(r@ =~= r@ + le_bytes(rest as nat, 0));
    }
    r
}

/// The eight little-endian bytes of `v`.
pub fn u64_le_bytes(v: u64) -> (r: Vec<u8>)
    ensures
        r@ == le_bytes(v as nat, 8),
{
    le_encode(v, 8)
}

/// Reads the `n` bytes of `s` from `start` as a little-endian number.
pub fn read_le(s: &Vec<u8>, start: usize, n: usize) -> (r: u64)
    requires
        n <= 8,
        start + n <= s@.len(),
    ensures
        r as nat == le_value(s@.subrange(start as int, start + n)),
        r < pow256(n as nat),
{
    let len = s.len();
    let mut r: u64 = 0;
    let mut i: usize = n;
    while i > 0
        invariant
            0 <= i <= n <= 8,
            len == s@.len(),
            start + n <= s@.len(),
            r as nat == le_value(s@.subrange(start + i, start + n)),
            r < pow256((n - i) as nat),
        decreases i,
    {
        i = i - 1;
        let ghost tail = s@.subrange(start + i + 1, start + n);
        proof {
            let whole = s@.subrange(start + i, start + n);
            assert(whole.drop_first() =~= tail);
            assert(le_value(whole) == whole[0] as nat + 256 * le_value(tail));
            lemma_pow256_step((n - i - 1) as nat);
            assert(r as nat * 256 + 255 < pow256((n - i) as nat)) by (nonlinear_arith)
                requires r < pow256((n - i - 1) as nat), pow256((n - i) as nat) == 256 * pow256((n - i - 1) as nat);
            lemma_pow256_bound((n - i) as nat);
        }
        r = r * 256 + s[start + i] as u64;
    }
    r
}

/// Reads the eight bytes of `s` from `start` as a little-endian number.
pub fn read_u64_le(s: &Vec<u8>, start: usize) -> (r: u64)
    requires
        start + 8 <= s@.len(),
    ensures
        r as nat == le_value(s@.subrange(start as int, start + 8)),
{
    read_le(s, start, 8)
}

pub open spec fn pow256(n: nat) -> nat
    decreases n,
{
    if n == 0 {
        1
    } else {
        256 * pow256((n - 1) as nat)
    }
}

proof fn lemma_pow256_step(n: nat)
    ensures
        pow256(n + 1) == 256 * pow256(n),
{
}

proof fn lemma_pow256_bound(n: nat)
    requires
        n <= 8,
    ensures
        pow256(n) <= 0x1_0000_0000_0000_0000,
    decreases n,
{
    reveal_with_fuel(pow256, 9);
    if n > 0 {
        lemma_pow256_bound((n - 1) as nat);
    }
}

proof fn lemma_pow256_positive(n: nat)
    ensures
        pow256(n) > 0,
    decreases n,
{
    if n > 0 {
        lemma_pow256_positive((n - 1) as nat);
    }
}

/// Reading back what `le_bytes` wrote gives the value modulo the width.
pub proof fn lemma_le_round_trip(v: nat, n: nat)
    ensures
        le_bytes(v, n).len() == n,
        le_value(le_bytes(v, n)) == v % pow256(n),
    decreases n,
{
    if n > 0 {
        let s = le_bytes(v, n);
        lemma_le_round_trip(v / 256, (n - 1) as nat);
        assert(s.drop_first() =~= le_bytes(v / 256, (n - 1) as nat));
        lemma_pow256_positive((n - 1) as nat);
        lemma_breakdown(v as int, 256, pow256((n - 1) as nat) as int);
    }
}

/// Four little-endian bytes read back as the `u32` they were written from.
pub proof fn lemma_u32_round_trip(v: u32)
    ensures
        le_bytes(v as nat, 4).len() == 4,
        le_value(le_bytes(v as nat, 4)) == v,
{
    lemma_le_round_trip(v as nat, 4);
    lemma_pow256_64();
}

/// Eight little-endian bytes read back as the `u64` they were written from.
pub proof fn lemma_u64_round_trip(v: u64)
    ensures
        le_bytes(v as nat, 8).len() == 8,
        le_value(le_bytes(v as nat, 8)) == v,
{
    lemma_le_round_trip(v as nat, 8);
    lemma_pow256_64();
}

pub proof fn lemma_pow256_64()
    ensures
        pow256(4) == 0x1_0000_0000,
        pow256(8) == 0x1_0000_0000_0000_0000,
{
    assert(pow256(0) == 1);
    assert(pow256(1) == 0x100);
    assert(pow256(2) == 0x1_0000);
    assert(pow256(3) == 0x100_0000);
    assert(pow256(4) == 0x1_0000_0000);
    assert(pow256(5) == 0x100_0000_0000);
    assert(pow256(6) == 0x1_0000_0000_0000);
    assert(pow256(7) == 0x100_0000_0000_0000);
    assert(pow256(8) == 0x1_0000_0000_0000_0000);
}

/// `data` with the bytes from `off` replaced by `b`.
pub open spec fn put_bytes(data: Seq<u8>, off: int, b: Seq<u8>) -> Seq<u8> {
    data.subrange(0, off) + b + data.subrange(off + b.len(), data.len() as int)
}

/// Writes `src` over the bytes of `data` from `off`.
pub fn write_bytes(data: &mut Vec<u8>, off: usize, src: &Vec<u8>)
    requires
        off + src@.len() <= old(data)@.len(),
    ensures
        final(data)@ == put_bytes(old(data)@, off as int, src@),
{
    let n = data.len();
    let mut i: usize = 0;
    while i < src.len()
        invariant
            0 <= i <= src@.len(),
            n == data@.len() == old(data)@.len(),
            off + src@.len() <= n,
            forall|j: int| 0 <= j < off ==> data@[j] == old(data)@[j],
            forall|j: int| off <= j < off + i ==> data@[j] == src@[j - off],
            forall|j: int| off + i <= j < n ==> data@[j] == old(data)@[j],
        decreases src@.len() - i,
    {
        data.set(off + i, src[i]);
        i = i + 1;
    }
    proof {
        assert(data@ =~= put_bytes(old(data)@, off as int, src@));
    }
}

/// The 32 bytes of `v` from `start`, as an address.
pub fn address_at(v: &Vec<u8>, start: usize) -> (r: Address)
    requires
        start + 32 <= v@.len(),
    ensures
        r@ == v@.subrange(start as int, start + 32),
{
    let n = v.len();
    let mut bytes: [u8; 32] = [0u8; 32];
    let mut i: usize = 0;
    while i < 32
        invariant
            0 <= i <= 32,
            n == v@.len(),
            start + 32 <= n,
            bytes@.len() == 32,
            forall|j: int| 0 <= j < i ==> bytes@[j] == v@[start + j],
        decreases 32 - i,
    {
        bytes[i] = v[start + i];
        i = i + 1;
    }
    let r = Address { bytes };
    proof {
        assert(r@ =~= v@.subrange(start as int, start + 32));
    }
    r
}

} // verus!
