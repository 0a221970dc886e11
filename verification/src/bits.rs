//! The shift-register image as a mathematical sequence of bits, the channel
//! update and readback functions over it, and byte packing for the bus.

use vstd::prelude::*;

verus! {

/// Bit `t` of a channel word: true when the bit at position `t` (counting
/// from the least significant end) of `v` is one.
pub open spec fn val_bit(v: u16, t: u16) -> bool {
    (v >> t) & 1 == 1
}

/// Bit `i` of a bit sequence, false outside the sequence.
pub open spec fn bit_in(bits: Seq<bool>, i: int) -> bool {
    0 <= i < bits.len() && bits[i]
}

/// The image after writing `val` into the word of `channel`.
///
/// Channels are addressed from the end of the image: the word of `channel`
/// occupies bits `[len - (channel + 1) * word_bits, len - channel *
/// word_bits)`, with the value's least-significant bit at the lowest index.
pub open spec fn spec_set_pwm(bits: Seq<bool>, word_bits: nat, channel: nat, val: u16) -> Seq<
    bool,
> {
    let end = bits.len() - channel * word_bits;
    let start = end - word_bits;
    Seq::new(
        bits.len(),
        |j: int|
            if start <= j < end {
                val_bit(val, (j - start) as u16)
            } else {
                bits[j]
            },
    )
}

/// The value encoded by the `n` bits starting at `start`, least-significant
/// bit first.  Zero when `n` is out of the sixteen-bit range.
pub open spec fn word_from_bits(bits: Seq<bool>, start: int, n: nat) -> u16
    decreases n,
{
    if n == 0 || n > 16 {
        0u16
    } else {
        word_from_bits(bits, start, (n - 1) as nat) | (if bit_in(bits, start + n - 1) {
            1u16 << ((n - 1) as u16)
        } else {
            0u16
        })
    }
}

/// The word of `channel`, read back from the image.
pub open spec fn spec_get_pwm(bits: Seq<bool>, word_bits: nat, channel: nat) -> u16 {
    word_from_bits(bits, bits.len() - (channel + 1) * word_bits, word_bits)
}

/// The byte whose bits are `bits[start .. start + n]`, first bit most
/// significant, missing bits zero.  Zero when `n` is out of the eight-bit
/// range.
pub open spec fn byte_from_bits(bits: Seq<bool>, start: int, n: nat) -> u8
    decreases n,
{
    if n == 0 || n > 8 {
        0u8
    } else {
        (byte_from_bits(bits, start, (n - 1) as nat) << 1) | (if bit_in(bits, start + n - 1) {
            1u8
        } else {
            0u8
        })
    }
}

/// The image packed into bytes, preserving shift-in bit order: bit `i` of the
/// image becomes bit `7 - i % 8` of byte `i / 8`, and the bits of a trailing
/// partial byte are zero.
pub open spec fn pack_bits(bits: Seq<bool>) -> Seq<u8> {
    Seq::new((bits.len() + 7) / 8, |k: int| byte_from_bits(bits, 8 * k, 8))
}

/// The mask of the `n` least significant bits of a sixteen-bit word.
pub open spec fn mask16(n: u16) -> u16 {
    ((1u32 << n) - 1) as u16
}

/// The `n` bits starting at `start`, read back as a word, give the low `n`
/// bits of `val` whenever they hold the encoding of `val`.
proof fn lemma_word_from_masked_bits(s: Seq<bool>, start: int, n: nat, val: u16)
    requires
        n <= 16,
        forall|t: u16| t < n ==> (#[trigger] bit_in(s, start + t)) == val_bit(val, t),
    ensures
        word_from_bits(s, start, n) == val & mask16(n as u16),
    decreases n,
{
    if n == 0 {
        assert(val & mask16(0) == 0) by (bit_vector);
    } else {
        lemma_word_from_masked_bits(s, start, (n - 1) as nat, val);
        let m = (n - 1) as u16;
        assert(bit_in(s, start + m) == val_bit(val, m));
        if val_bit(val, m) {
            assert((val & mask16(m)) | (1u16 << m) == val & mask16((m + 1) as u16)) by (bit_vector)
                requires
                    (val >> m) & 1 == 1,
                    m < 16,
            ;
        } else {
            assert((val & mask16(m)) | 0u16 == val & mask16((m + 1) as u16)) by (bit_vector)
                requires
                    (val >> m) & 1 != 1,
                    m < 16,
            ;
        }
    }
}

/// Writing a word and reading it back returns exactly the value written:
/// for any value that fits in the word width and any channel whose word
/// lies inside the image, the word read back after `spec_set_pwm` is the
/// value that was set.
pub proof fn lemma_set_pwm_readback(bits: Seq<bool>, word_bits: nat, channel: nat, val: u16)
    requires
        0 < word_bits <= 16,
        (channel + 1) * word_bits <= bits.len(),
        (val as u32) >> (word_bits as u32) == 0,
    ensures
        spec_get_pwm(spec_set_pwm(bits, word_bits, channel, val), word_bits, channel) == val,
{
    let s = spec_set_pwm(bits, word_bits, channel, val);
    let len = bits.len() as int;
    let w = word_bits as int;
    assert((channel + 1) * w == channel * w + w && 0 <= channel * w) by (nonlinear_arith)
        requires
            0 <= channel,
            0 < w,
    ;
    let start = len - channel * w - w;
    assert forall|t: u16| t < word_bits implies (#[trigger] bit_in(s, start + t)) == val_bit(
        val,
        t,
    ) by {
        assert(s[start + t] == val_bit(val, t));
    }
    lemma_word_from_masked_bits(s, start, word_bits, val);
    let wbu = word_bits as u16;
    assert(val & mask16(wbu) == val) by (bit_vector)
        requires
            (val as u32) >> (wbu as u32) == 0,
            0 < wbu <= 16,
    ;
}

/// A word readback only looks at the bits of that word: two images that
/// agree on the range of `n` bits at `start` read back the same word.
proof fn lemma_word_from_bits_congruence(s1: Seq<bool>, s2: Seq<bool>, start: int, n: nat)
    requires
        forall|t: int| 0 <= t < n ==> (#[trigger] bit_in(s1, start + t)) == bit_in(s2, start + t),
    ensures
        word_from_bits(s1, start, n) == word_from_bits(s2, start, n),
    decreases n,
{
    if 0 < n <= 16 {
        lemma_word_from_bits_congruence(s1, s2, start, (n - 1) as nat);
        assert(bit_in(s1, start + n - 1) == bit_in(s2, start + n - 1));
    }
}

/// Writing one channel has no effect on what any other channel reads back:
/// the two words occupy disjoint bit ranges.
pub proof fn lemma_set_pwm_preserves_others(
    bits: Seq<bool>,
    word_bits: nat,
    written: nat,
    val: u16,
    other: nat,
)
    requires
        0 < word_bits,
        (written + 1) * word_bits <= bits.len(),
        (other + 1) * word_bits <= bits.len(),
        written != other,
    ensures
        spec_get_pwm(spec_set_pwm(bits, word_bits, written, val), word_bits, other)
            == spec_get_pwm(bits, word_bits, other),
{
    let s = spec_set_pwm(bits, word_bits, written, val);
    let len = bits.len() as int;
    let w = word_bits as int;
    lemma_word_ranges_disjoint(len, w, written as int, other as int);
    let start_o = len - other as int * w - w;
    assert forall|t: int| 0 <= t < word_bits implies (#[trigger] bit_in(s, start_o + t)) == bit_in(
        bits,
        start_o + t,
    ) by {}
    lemma_word_from_bits_congruence(s, bits, start_o, word_bits);
}

/// The bit ranges of two distinct channels are disjoint: the range of the
/// higher-numbered channel ends at or before the lower-numbered one starts.
proof fn lemma_word_ranges_disjoint(len: int, w: int, c1: int, c2: int)
    requires
        0 < w,
        0 <= c1,
        0 <= c2,
        (c1 + 1) * w <= len,
        (c2 + 1) * w <= len,
        c1 != c2,
    ensures
        (c1 + 1) * w == c1 * w + w,
        (c2 + 1) * w == c2 * w + w,
        c1 < c2 ==> len - c2 * w <= len - c1 * w - w,
        c2 < c1 ==> len - c1 * w <= len - c2 * w - w,
{
    assert((c1 + 1) * w == c1 * w + w && (c2 + 1) * w == c2 * w + w && (c1 < c2 ==> c1 * w + w
        <= c2 * w) && (c2 < c1 ==> c2 * w + w <= c1 * w)) by (nonlinear_arith)
        requires
            0 < w,
            0 <= c1,
            0 <= c2,
    ;
}

/// Writing two distinct channels commutes: the image does not depend on
/// the order of the two writes, so any set of channel writes yields the
/// same image in any order.
pub proof fn lemma_set_pwm_commutes(
    bits: Seq<bool>,
    word_bits: nat,
    c1: nat,
    v1: u16,
    c2: nat,
    v2: u16,
)
    requires
        0 < word_bits,
        (c1 + 1) * word_bits <= bits.len(),
        (c2 + 1) * word_bits <= bits.len(),
        c1 != c2,
    ensures
        spec_set_pwm(spec_set_pwm(bits, word_bits, c1, v1), word_bits, c2, v2) == spec_set_pwm(
            spec_set_pwm(bits, word_bits, c2, v2),
            word_bits,
            c1,
            v1,
        ),
{
    let len = bits.len() as int;
    let w = word_bits as int;
    lemma_word_ranges_disjoint(len, w, c1 as int, c2 as int);
    let lhs = spec_set_pwm(spec_set_pwm(bits, word_bits, c1, v1), word_bits, c2, v2);
    let rhs = spec_set_pwm(spec_set_pwm(bits, word_bits, c2, v2), word_bits, c1, v1);
    assert forall|j: int| 0 <= j < len implies lhs[j] == rhs[j] by {}
    assert(lhs =~= rhs);
}

/// The image after a batch of channel writes, applied first to last.
pub open spec fn spec_apply_writes(
    bits: Seq<bool>,
    word_bits: nat,
    writes: Seq<(nat, u16)>,
) -> Seq<bool>
    decreases writes.len(),
{
    if writes.len() == 0 {
        bits
    } else {
        spec_set_pwm(
            spec_apply_writes(bits, word_bits, writes.drop_last()),
            word_bits,
            writes.last().0,
            writes.last().1,
        )
    }
}

/// Every write of the batch addresses a channel whose word lies inside an
/// image of `len` bits.
pub open spec fn writes_in_range(len: nat, word_bits: nat, writes: Seq<(nat, u16)>) -> bool {
    forall|i: int| 0 <= i < writes.len() ==> ((#[trigger] writes[i]).0 + 1) * word_bits <= len
}

/// No two writes of the batch address the same channel.
pub open spec fn channels_distinct(writes: Seq<(nat, u16)>) -> bool {
    forall|i: int, k: int|
        0 <= i < k < writes.len() ==> (#[trigger] writes[i]).0 != (#[trigger] writes[k]).0
}

/// A batch of writes never changes the length of the image.
pub proof fn lemma_apply_writes_len(bits: Seq<bool>, word_bits: nat, writes: Seq<(nat, u16)>)
    ensures
        spec_apply_writes(bits, word_bits, writes).len() == bits.len(),
    decreases writes.len(),
{
    if writes.len() > 0 {
        lemma_apply_writes_len(bits, word_bits, writes.drop_last());
    }
}

/// Writing a batch of distinct channels leaves every written channel
/// holding the value written to it, wherever in the batch that write
/// stands: the final image does not depend on the order of the writes.
pub proof fn lemma_apply_writes_reads_back(
    bits: Seq<bool>,
    word_bits: nat,
    writes: Seq<(nat, u16)>,
    i: int,
)
    requires
        0 < word_bits <= 16,
        writes_in_range(bits.len(), word_bits, writes),
        channels_distinct(writes),
        0 <= i < writes.len(),
        (writes[i].1 as u32) >> (word_bits as u32) == 0,
    ensures
        spec_get_pwm(spec_apply_writes(bits, word_bits, writes), word_bits, writes[i].0)
            == writes[i].1,
    decreases writes.len(),
{
    let shorter = writes.drop_last();
    lemma_apply_writes_len(bits, word_bits, shorter);
    let prior = spec_apply_writes(bits, word_bits, shorter);
    let last = writes.last();
    if i == writes.len() - 1 {
        lemma_set_pwm_readback(prior, word_bits, last.0, last.1);
    } else {
        assert(forall|k: int| 0 <= k < shorter.len() ==> shorter[k] == writes[k]);
        lemma_apply_writes_reads_back(bits, word_bits, shorter, i);
        lemma_set_pwm_preserves_others(prior, word_bits, last.0, last.1, writes[i].0);
    }
}

/// Writing a batch of distinct channels leaves every channel outside the
/// batch reading back what it read before.
pub proof fn lemma_apply_writes_preserves_unwritten(
    bits: Seq<bool>,
    word_bits: nat,
    writes: Seq<(nat, u16)>,
    other: nat,
)
    requires
        0 < word_bits,
        writes_in_range(bits.len(), word_bits, writes),
        (other + 1) * word_bits <= bits.len(),
        forall|i: int| 0 <= i < writes.len() ==> (#[trigger] writes[i]).0 != other,
    ensures
        spec_get_pwm(spec_apply_writes(bits, word_bits, writes), word_bits, other) == spec_get_pwm(
            bits,
            word_bits,
            other,
        ),
    decreases writes.len(),
{
    if writes.len() > 0 {
        let shorter = writes.drop_last();
        lemma_apply_writes_len(bits, word_bits, shorter);
        let prior = spec_apply_writes(bits, word_bits, shorter);
        assert(forall|k: int| 0 <= k < shorter.len() ==> shorter[k] == writes[k]);
        lemma_apply_writes_preserves_unwritten(bits, word_bits, shorter, other);
        lemma_set_pwm_preserves_others(prior, word_bits, writes.last().0, writes.last().1, other);
    }
}

/// Packs a bit sequence into bytes, preserving shift-in bit order.
pub fn pack(bits: &Vec<bool>) -> (r: Vec<u8>)
    requires
        bits@.len() + 7 <= usize::MAX,
    ensures
        r@ == pack_bits(bits@),
{
    let len = bits.len();
    let n_bytes = (len + 7) / 8;
    let mut r: Vec<u8> = Vec::new();
    let mut k: usize = 0;
    while k < n_bytes
        invariant
            n_bytes == (bits@.len() + 7) / 8,
            len == bits@.len(),
            len + 7 <= usize::MAX,
            k <= n_bytes,
            r@.len() == k,
            forall|i: int| 0 <= i < k ==> r@[i] == byte_from_bits(bits@, 8 * i, 8),
        decreases n_bytes - k,
    {
        proof {
            assert(8 * k + 8 <= 8 * n_bytes) by (nonlinear_arith)
                requires
                    k < n_bytes,
            ;
            vstd::arithmetic::div_mod::lemma_fundamental_div_mod((len + 7) as int, 8);
            vstd::arithmetic::div_mod::lemma_mod_bound((len + 7) as int, 8);
            assert(8 * n_bytes <= len + 7);
        }
        let mut acc: u8 = 0;
        let mut j: usize = 0;
        while j < 8
            invariant
                j <= 8,
                len == bits@.len(),
                8 * k + 8 <= usize::MAX,
                acc == byte_from_bits(bits@, 8 * (k as int), j as nat),
            decreases 8 - j,
        {
            let idx = 8 * k + j;
            let b = if idx < len {
                bits[idx]
            } else {
                false
            };
            acc = (acc << 1u8) | (if b {
                1u8
            } else {
                0u8
            });
            j += 1;
        }
        r.push(acc);
        k += 1;
    }
    proof {
        assert(r@ =~= pack_bits(bits@));
    }
    r
}

} // verus!
