use vstd::prelude::*;

verus! {

/// How many leading bytes of an upload its deletion hash covers.
pub const SAMPLE_WANTED_BYTES: usize = 32768;

/// The 128-bit XXH3 hash of `b`.
pub uninterp spec fn xxh3_128_of(b: Seq<u8>) -> u128;

/// Relies on `twox_hash::XxHash3_128::oneshot`: the XXH3 128-bit hash of the
/// bytes, with the default seed and secret.
#[verifier::external_body]
fn xxh3_128(b: &[u8]) -> (r: u128)
    ensures
        r == xxh3_128_of(b@),
{
    twox_hash::XxHash3_128::oneshot(b)
}

/// The `n` low bytes of `x`, most significant first.
pub open spec fn be_bytes(x: int, n: nat) -> Seq<u8>
    decreases n,
{
    if n == 0 {
        Seq::empty()
    } else {
        be_bytes(x / 256, (n - 1) as nat).push((x % 256) as u8)
    }
}

/// The number that the bytes `b` spell, most significant first.
pub open spec fn be_value(b: Seq<u8>) -> int
    decreases b.len(),
{
    if b.len() == 0 {
        0
    } else {
        be_value(b.drop_last()) * 256 + b.last()
    }
}

/// Spelling a number in `n` bytes and reading it back gives the number, when
/// it fits.
pub proof fn lemma_be_round_trip(x: int, n: nat)
    requires
        0 <= x,
    ensures
        be_bytes(x, n).len() == n,
        be_value(be_bytes(x, n)) == x % pow256(n),
    decreases n,
{
    if n > 0 {
        lemma_be_round_trip(x / 256, (n - 1) as nat);
        let b = be_bytes(x, n);
        assert(b.drop_last() =~= be_bytes(x / 256, (n - 1) as nat));
        let p = pow256((n - 1) as nat);
        assert(p > 0) by {
            lemma_pow256_positive((n - 1) as nat);
        }
        assert((x / 256) % p * 256 + x % 256 == x % (p * 256)) by (nonlinear_arith)
            requires
                p > 0,
                x >= 0,
        {
            vstd::arithmetic::div_mod::lemma_breakdown(x, 256, p);
        }
    }
}

/// `256` to the power `n`.
pub open spec fn pow256(n: nat) -> int
    decreases n,
{
    if n == 0 {
        1
    } else {
        pow256((n - 1) as nat) * 256
    }
}

/// Powers of 256 are positive.
pub proof fn lemma_pow256_positive(n: nat)
    ensures
        pow256(n) > 0,
    decreases n,
{
    if n > 0 {
        lemma_pow256_positive((n - 1) as nat);
    }
}

/// Appends the `n` low bytes of `x` to `buf`, most significant first.
pub fn put_be(buf: &mut Vec<u8>, x: u128, n: usize)
    ensures
        final(buf)@ == old(buf)@ + be_bytes(x as int, n as nat),
    decreases n,
{
    if n > 0 {
        put_be(buf, x / 256, n - 1);
        buf.push((x % 256) as u8);
        assert(buf@ =~= old(buf)@ + be_bytes(x as int, n as nat));
    }
}

/// The first `min(SAMPLE_WANTED_BYTES, |b|)` bytes of `b`.
pub open spec fn sample_of(b: Seq<u8>) -> Seq<u8> {
    if b.len() <= SAMPLE_WANTED_BYTES {
        b
    } else {
        b.take(SAMPLE_WANTED_BYTES as int)
    }
}

/// What the deletion hash of an upload of `len` bytes with leading bytes
/// `sample` is taken over: the length as eight big-endian bytes, then the
/// sample.
pub open spec fn hash_input(len: u64, sample: Seq<u8>) -> Seq<u8> {
    be_bytes(len as int, 8) + sample
}

/// The deletion hash of an upload of `len` bytes whose leading bytes are
/// `data_sample`. This format is frozen: deletion links depend on it.
pub fn calculate_hash(len: u64, data_sample: &[u8]) -> (r: u128)
    ensures
        r == xxh3_128_of(hash_input(len, data_sample@)),
{
    let mut buf: Vec<u8> = Vec::new();
    put_be(&mut buf, len as u128, 8);
    let mut i: usize = 0;
    while i < data_sample.len()
        invariant
            i <= data_sample@.len(),
            buf@ == be_bytes(len as int, 8) + data_sample@.take(i as int),
        decreases data_sample@.len() - i,
    {
        buf.push(data_sample[i]);
        i = i + 1;
        assert(buf@ =~= be_bytes(len as int, 8) + data_sample@.take(i as int));
    }
    assert(data_sample@.take(i as int) =~= data_sample@);
    xxh3_128(buf.as_slice())
}

} // verus!
