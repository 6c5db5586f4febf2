use vstd::arithmetic::power2::pow2;
use vstd::prelude::*;

verus! {

/// Bit `i` of `d`, counting from the most significant bit of the first byte.
pub open spec fn bit_at(d: Seq<u8>, i: int) -> nat {
    ((d[i / 8] as nat) / pow2((7 - i % 8) as nat)) % 2
}

/// The unsigned number formed by the `n` bits of `d` that start at bit `pos`,
/// most significant bit first.
pub open spec fn bits_at(d: Seq<u8>, pos: int, n: nat) -> nat
    decreases n,
{
    if n == 0 {
        0
    } else {
        2 * bits_at(d, pos, (n - 1) as nat) + bit_at(d, pos + n - 1)
    }
}

/// `n` bits never make a number of `n + 1` bits or more.
pub proof fn lemma_bits_bound(d: Seq<u8>, pos: int, n: nat)
    ensures
        bits_at(d, pos, n) < pow2(n),
    decreases n,
{
    if n > 0 {
        lemma_bits_bound(d, pos, (n - 1) as nat);
        vstd::arithmetic::power2::lemma_pow2_unfold(n);
    } else {
        vstd::arithmetic::power2::lemma2_to64();
    }
}

/// Bits that lie in a common prefix of two sequences read the same in both.
pub proof fn lemma_bits_prefix(a: Seq<u8>, b: Seq<u8>, pos: int, n: nat)
    requires
        0 <= pos,
        pos + n <= 8 * a.len(),
        a.len() <= b.len(),
        a == b.take(a.len() as int),
    ensures
        bits_at(a, pos, n) == bits_at(b, pos, n),
    decreases n,
{
    if n > 0 {
        lemma_bits_prefix(a, b, pos, (n - 1) as nat);
        let i = pos + n - 1;
        assert(0 <= i / 8 < a.len());
        assert(a[i / 8] == b.take(a.len() as int)[i / 8]);
    }
}

proof fn lemma_bit_index(i: int, k: int)
    requires
        0 <= k < 8,
    ensures
        (8 * i + k) / 8 == i,
        (8 * i + k) % 8 == k,
{
    assert((8 * i + k) / 8 == i) by (nonlinear_arith)
        requires
            0 <= k < 8,
    ;
    assert((8 * i + k) % 8 == k) by (nonlinear_arith)
        requires
            0 <= k < 8,
    ;
}

/// The eight bits at the start of a byte are that byte.
pub proof fn lemma_bits_of_byte(d: Seq<u8>, i: int)
    requires
        0 <= i < d.len(),
    ensures
        bits_at(d, 8 * i, 8) == d[i],
{
    reveal_with_fuel(bits_at, 9);
    vstd::arithmetic::power2::lemma2_to64();
    let x = d[i];
    lemma_bit_index(i, 0);
    lemma_bit_index(i, 1);
    lemma_bit_index(i, 2);
    lemma_bit_index(i, 3);
    lemma_bit_index(i, 4);
    lemma_bit_index(i, 5);
    lemma_bit_index(i, 6);
    lemma_bit_index(i, 7);
    assert(bit_at(d, 8 * i) == (x / 128) as nat % 2);
    assert(bit_at(d, 8 * i + 1) == (x / 64) as nat % 2);
    assert(bit_at(d, 8 * i + 2) == (x / 32) as nat % 2);
    assert(bit_at(d, 8 * i + 3) == (x / 16) as nat % 2);
    assert(bit_at(d, 8 * i + 4) == (x / 8) as nat % 2);
    assert(bit_at(d, 8 * i + 5) == (x / 4) as nat % 2);
    assert(bit_at(d, 8 * i + 6) == (x / 2) as nat % 2);
    assert(x as nat / 1 == x as nat);
    assert(bit_at(d, 8 * i + 7) == x as nat % 2);
    assert(x == 128 * ((x / 128) % 2) + 64 * ((x / 64) % 2) + 32 * ((x / 32) % 2) + 16 * ((x / 16)
        % 2) + 8 * ((x / 8) % 2) + 4 * ((x / 4) % 2) + 2 * ((x / 2) % 2) + x % 2) by (bit_vector);
}

/// Relies on bitreader's `BitReader`: after `skip(pos)`, `read_u32(n)` returns the
/// `n` bits that follow, most significant first, and neither call fails while the
/// slice holds `pos + n` bits.
#[verifier::external_body]
pub(crate) fn read_bits(data: &[u8], pos: usize, n: u8) -> (r: u32)
    requires
        1 <= n <= 32,
        pos + n <= 8 * data@.len(),
        data@.len() <= 0x1_0000_0000,
    ensures
        r as nat == bits_at(data@, pos as int, n as nat),
{
    let mut reader = bitreader::BitReader::new(data);
    reader.skip(pos as u64).unwrap();
    reader.read_u32(n).unwrap()
}

} // verus!
