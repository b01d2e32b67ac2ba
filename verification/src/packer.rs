use vstd::prelude::*;

verus! {

/// Value of the bit that stands for pixel `i` of a group of eight. Pixel 0
/// has the most significant bit.
pub open spec fn bit_mask(i: int) -> u8 {
    if i == 0 {
        0x80
    } else if i == 1 {
        0x40
    } else if i == 2 {
        0x20
    } else if i == 3 {
        0x10
    } else if i == 4 {
        0x08
    } else if i == 5 {
        0x04
    } else if i == 6 {
        0x02
    } else if i == 7 {
        0x01
    } else {
        0
    }
}

/// Sum of the bits of the pixels before position `n` of a group that are on.
/// A pixel is on when its sample is not zero.
pub open spec fn packed_prefix(group: Seq<u8>, n: int) -> int
    decreases n,
{
    if n <= 0 {
        0
    } else {
        packed_prefix(group, n - 1) + if group[n - 1] > 0 {
            bit_mask(n - 1) as int
        } else {
            0
        }
    }
}

/// The byte that stands for a group of eight pixels.
pub open spec fn packed_byte(group: Seq<u8>) -> u8 {
    packed_prefix(group, 8) as u8
}

/// The packed form of a run of samples: one byte for each full group of
/// eight, in order. Samples after the last full group are left out.
pub open spec fn packed(samples: Seq<u8>) -> Seq<u8> {
    Seq::new(samples.len() / 8, |k: int| packed_byte(samples.subrange(8 * k, 8 * k + 8)))
}

/// Whether bit `i` of `byte` is set, bit 0 being the most significant.
pub open spec fn bit_set(byte: u8, i: int) -> bool {
    byte & bit_mask(i) != 0
}

/// The samples that a packed run stands for: eight for each byte, 255 for a
/// bit that is set and 0 for one that is not.
pub open spec fn unpacked(bytes: Seq<u8>) -> Seq<u8> {
    Seq::new(
        bytes.len() * 8,
        |p: int|
            if bit_set(bytes[p / 8], p % 8) {
                255u8
            } else {
                0u8
            },
    )
}

proof fn lemma_prefix_bound(group: Seq<u8>, n: int)
    requires
        0 <= n <= 8,
    ensures
        0 <= packed_prefix(group, n),
        n > 0 ==> packed_prefix(group, n) + bit_mask(n - 1) <= 256,
    decreases n,
{
    if n > 0 {
        lemma_prefix_bound(group, n - 1);
    }
}

proof fn lemma_shifted_mask(i: u8)
    requires
        i < 8,
    ensures
        0x80u8 >> i == bit_mask(i as int),
{
    assert(0x80u8 >> 0u8 == 0x80u8) by (bit_vector);
    assert(0x80u8 >> 1u8 == 0x40u8) by (bit_vector);
    assert(0x80u8 >> 2u8 == 0x20u8) by (bit_vector);
    assert(0x80u8 >> 3u8 == 0x10u8) by (bit_vector);
    assert(0x80u8 >> 4u8 == 0x08u8) by (bit_vector);
    assert(0x80u8 >> 5u8 == 0x04u8) by (bit_vector);
    assert(0x80u8 >> 6u8 == 0x02u8) by (bit_vector);
    assert(0x80u8 >> 7u8 == 0x01u8) by (bit_vector);
}

/// Packs samples into bits: one byte for each full group of eight samples, a
/// bit set where the sample is not zero, the first sample of a group in the
/// most significant bit. Samples after the last full group are dropped.
pub fn pack_bits(samples: &[u8]) -> (bytes: Vec<u8>)
    ensures
        bytes@ == packed(samples@),
{
    let len: usize = samples.len();
    let groups: usize = len / 8;
    let mut bytes: Vec<u8> = Vec::new();
    let mut k: usize = 0;
    while k < groups
        invariant
            len == samples@.len(),
            groups == len / 8,
            k <= groups,
            bytes@.len() == k,
            forall|j: int| 0 <= j < k ==> bytes@[j] == packed_byte(#[trigger] samples@.subrange(8 * j, 8 * j + 8)),
        decreases groups - k,
    {
        let ghost group = samples@.subrange(8 * k, 8 * k + 8);
        let mut byte: u8 = 0;
        let mut i: u8 = 0;
        while i < 8
            invariant
                len == samples@.len(),
                8 * k + 8 <= len,
                i <= 8,
                group == samples@.subrange(8 * k, 8 * k + 8),
                byte == packed_prefix(group, i as int),
            decreases 8 - i,
        {
            proof {
                lemma_prefix_bound(group, i as int);
                lemma_prefix_bound(group, i + 1);
                lemma_shifted_mask(i);
            }
            if samples[8 * k + i as usize] > 0 {
                byte = byte + (0x80u8 >> i);
            }
            i = i + 1;
        }
        bytes.push(byte);
        k = k + 1;
    }
    assert(bytes@ =~= packed(samples@));
    bytes
}

/// Unpacks bits into samples: eight for each byte, most significant bit
/// first, 255 for a bit that is set and 0 for one that is not.
pub fn unpack_bits(bytes: &[u8]) -> (samples: Vec<u8>)
    requires
        bytes@.len() * 8 <= usize::MAX,
    ensures
        samples@ == unpacked(bytes@),
{
    let mut samples: Vec<u8> = Vec::new();
    let mut k: usize = 0;
    while k < bytes.len()
        invariant
            k <= bytes@.len(),
            bytes@.len() * 8 <= usize::MAX,
            samples@.len() == 8 * k,
            forall|p: int| 0 <= p < 8 * k ==> #[trigger] samples@[p] == unpacked(bytes@)[p],
        decreases bytes@.len() - k,
    {
        let byte = bytes[k];
        let mut i: u8 = 0;
        while i < 8
            invariant
                k < bytes@.len(),
                bytes@.len() * 8 <= usize::MAX,
                byte == bytes@[k as int],
                i <= 8,
                samples@.len() == 8 * k + i,
                forall|p: int| 0 <= p < 8 * k + i ==> #[trigger] samples@[p] == unpacked(bytes@)[p],
            decreases 8 - i,
        {
            proof {
                lemma_shifted_mask(i);
            }
            let on = byte & (0x80u8 >> i) != 0;
            samples.push(if on { 255 } else { 0 });
            i = i + 1;
        }
        k = k + 1;
    }
    assert(samples@ =~= unpacked(bytes@));
    samples
}

proof fn lemma_byte_is_sum_of_bits(b: u8)
    ensures
        (if b & 0x80 != 0 { 0x80u8 } else { 0u8 }) + (if b & 0x40 != 0 { 0x40u8 } else { 0u8 })
            + (if b & 0x20 != 0 { 0x20u8 } else { 0u8 }) + (if b & 0x10 != 0 { 0x10u8 } else { 0u8 })
            + (if b & 0x08 != 0 { 0x08u8 } else { 0u8 }) + (if b & 0x04 != 0 { 0x04u8 } else { 0u8 })
            + (if b & 0x02 != 0 { 0x02u8 } else { 0u8 }) + (if b & 0x01 != 0 { 0x01u8 } else { 0u8 })
            == b,
{
    assert((if b & 0x80 != 0 { 0x80u8 } else { 0u8 }) + (if b & 0x40 != 0 { 0x40u8 } else { 0u8 })
        + (if b & 0x20 != 0 { 0x20u8 } else { 0u8 }) + (if b & 0x10 != 0 { 0x10u8 } else { 0u8 })
        + (if b & 0x08 != 0 { 0x08u8 } else { 0u8 }) + (if b & 0x04 != 0 { 0x04u8 } else { 0u8 })
        + (if b & 0x02 != 0 { 0x02u8 } else { 0u8 }) + (if b & 0x01 != 0 { 0x01u8 } else { 0u8 })
        == b) by (bit_vector);
}

proof fn lemma_bits_of_sum(c0: bool, c1: bool, c2: bool, c3: bool, c4: bool, c5: bool, c6: bool, c7: bool, v: u8)
    requires
        v == (if c0 { 0x80u8 } else { 0u8 }) + (if c1 { 0x40u8 } else { 0u8 }) + (if c2 { 0x20u8 } else { 0u8 })
            + (if c3 { 0x10u8 } else { 0u8 }) + (if c4 { 0x08u8 } else { 0u8 }) + (if c5 { 0x04u8 } else { 0u8 })
            + (if c6 { 0x02u8 } else { 0u8 }) + (if c7 { 0x01u8 } else { 0u8 }),
    ensures
        (v & 0x80 != 0) == c0,
        (v & 0x40 != 0) == c1,
        (v & 0x20 != 0) == c2,
        (v & 0x10 != 0) == c3,
        (v & 0x08 != 0) == c4,
        (v & 0x04 != 0) == c5,
        (v & 0x02 != 0) == c6,
        (v & 0x01 != 0) == c7,
{
    assert((v & 0x80 != 0) == c0 && (v & 0x40 != 0) == c1 && (v & 0x20 != 0) == c2 && (v & 0x10 != 0) == c3
        && (v & 0x08 != 0) == c4 && (v & 0x04 != 0) == c5 && (v & 0x02 != 0) == c6 && (v & 0x01 != 0) == c7)
        by (bit_vector)
        requires
            v == (if c0 { 0x80u8 } else { 0u8 }) + (if c1 { 0x40u8 } else { 0u8 }) + (if c2 { 0x20u8 } else { 0u8 })
                + (if c3 { 0x10u8 } else { 0u8 }) + (if c4 { 0x08u8 } else { 0u8 }) + (if c5 { 0x04u8 } else { 0u8 })
                + (if c6 { 0x02u8 } else { 0u8 }) + (if c7 { 0x01u8 } else { 0u8 }),
    ;
}

/// Each bit of a packed byte is set exactly where the sample that it stands
/// for is not zero.
pub proof fn lemma_packed_bit(samples: Seq<u8>, k: int, i: int)
    requires
        0 <= k < samples.len() / 8,
        0 <= i < 8,
    ensures
        bit_set(packed(samples)[k], i) == (samples[8 * k + i] != 0),
{
    let group = samples.subrange(8 * k, 8 * k + 8);
    let v = packed_byte(group);
    reveal_with_fuel(packed_prefix, 9);
    lemma_prefix_bound(group, 8);
    lemma_bits_of_sum(
        group[0] > 0,
        group[1] > 0,
        group[2] > 0,
        group[3] > 0,
        group[4] > 0,
        group[5] > 0,
        group[6] > 0,
        group[7] > 0,
        v,
    );
    assert(group[i] == samples[8 * k + i]);
}

/// Packing the samples that a packed run stands for gives the same run
/// again.
pub proof fn lemma_pack_unpack_round_trip(bytes: Seq<u8>)
    ensures
        packed(unpacked(bytes)) == bytes,
{
    let samples = unpacked(bytes);
    assert forall|k: int| 0 <= k < bytes.len() implies packed(samples)[k] == bytes[k] by {
        let group = samples.subrange(8 * k, 8 * k + 8);
        assert forall|i: int| 0 <= i < 8 implies (#[trigger] group[i] > 0) == bit_set(bytes[k], i) by {
            assert(group[i] == samples[8 * k + i]);
            assert((8 * k + i) / 8 == k && (8 * k + i) % 8 == i);
        }
        assert((group[0] > 0) == bit_set(bytes[k], 0));
        assert((group[1] > 0) == bit_set(bytes[k], 1));
        assert((group[2] > 0) == bit_set(bytes[k], 2));
        assert((group[3] > 0) == bit_set(bytes[k], 3));
        assert((group[4] > 0) == bit_set(bytes[k], 4));
        assert((group[5] > 0) == bit_set(bytes[k], 5));
        assert((group[6] > 0) == bit_set(bytes[k], 6));
        assert((group[7] > 0) == bit_set(bytes[k], 7));
        reveal_with_fuel(packed_prefix, 9);
        lemma_byte_is_sum_of_bits(bytes[k]);
    }
    assert(packed(samples) =~= bytes);
}

/// Unpacking the packed form of samples that are all 0 or 255, a multiple of
/// eight in number, gives the same samples again.
pub proof fn lemma_unpack_pack_round_trip(samples: Seq<u8>)
    requires
        samples.len() % 8 == 0,
        forall|p: int| 0 <= p < samples.len() ==> samples[p] == 0 || samples[p] == 255,
    ensures
        unpacked(packed(samples)) == samples,
{
    let bytes = packed(samples);
    assert forall|p: int| 0 <= p < samples.len() implies unpacked(bytes)[p] == samples[p] by {
        lemma_packed_bit(samples, p / 8, p % 8);
    }
    assert(unpacked(bytes) =~= samples);
}

} // verus!
