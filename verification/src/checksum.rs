use vstd::prelude::*;

verus! {

/// Word `k` of `data`: octets `2k` and `2k + 1` read big endian, a missing last octet read as 0.
pub open spec fn word_at(data: Seq<u8>, k: int) -> int {
    data[2 * k] * 256 + if 2 * k + 1 < data.len() {
        data[2 * k + 1] as int
    } else {
        0
    }
}

/// How many 16-bit words `data` makes, the last one possibly padded.
pub open spec fn word_count(data: Seq<u8>) -> int {
    (data.len() + 1) as int / 2
}

/// The sum of the first `n` words of `data`.
pub open spec fn words_sum(data: Seq<u8>, n: int) -> int
    decreases n,
{
    if n <= 0 {
        0
    } else {
        words_sum(data, n - 1) + word_at(data, n - 1)
    }
}

/// The end-around-carry fold of a sum: carries above 16 bits are added back in until the
/// sum fits in 16 bits.
pub open spec fn fold_carries(sum: int) -> int
    decreases sum,
{
    if sum > 0xffff {
        fold_carries(sum % 0x10000 + sum / 0x10000)
    } else {
        sum
    }
}

/// The one's-complement checksum of `data`: the complement of the folded sum of its words.
pub open spec fn checksum_of(data: Seq<u8>) -> int {
    0xffff - fold_carries(words_sum(data, word_count(data)))
}

proof fn lemma_word_bound(data: Seq<u8>, k: int)
    requires
        0 <= 2 * k < data.len(),
    ensures
        0 <= word_at(data, k) <= 0xffff,
{
}

proof fn lemma_fold_bound(sum: int)
    requires
        sum >= 0,
    ensures
        0 <= fold_carries(sum) <= 0xffff,
    decreases sum,
{
    if sum > 0xffff {
        lemma_fold_bound(sum % 0x10000 + sum / 0x10000);
    }
}

/// The one's-complement checksum of `data`, over its 16-bit big-endian words.
pub fn calculate_checksum(data: &[u8]) -> (r: u16)
    requires
        words_sum(data@, word_count(data@)) <= u32::MAX,
    ensures
        r == checksum_of(data@),
{
    let mut sum: u32 = 0;
    let mut i: usize = 0;
    let ghost mut words: int = 0;
    let ghost total = words_sum(data@, word_count(data@));
    proof {
        lemma_words_sum_monotone(data@, word_count(data@));
    }
    while i < data.len()
        invariant
            i == 2 * words || (i == data@.len() && words == word_count(data@)),
            0 <= words <= word_count(data@),
            i <= data@.len(),
            total == words_sum(data@, word_count(data@)),
            total <= u32::MAX,
            forall|n: int| 0 <= n <= word_count(data@) ==> #[trigger] words_sum(data@, n) <= total,
            sum == words_sum(data@, words),
        decreases data@.len() - i,
    {
        let mut checksum: u16 = 0;
        let high = data[i] as u16;
        assert(high << 8u16 == high * 256) by (bit_vector)
            requires
                high < 256,
        ;
        checksum += high << 8;
        let low: u16 = if i + 1 < data.len() {
            data[i + 1] as u16
        } else {
            0
        };
        checksum += low;
        proof {
            assert(checksum == word_at(data@, words));
            assert(words_sum(data@, words + 1) == words_sum(data@, words) + word_at(data@, words));
            assert(words_sum(data@, words + 1) <= total);
        }
        sum += checksum as u32;
        if data.len() - i >= 2 {
            i += 2;
        } else {
            i = data.len();
        }
        proof {
            words = words + 1;
        }
    }
    assert(words == word_count(data@));
    proof {
        lemma_fold_bound(sum as int);
    }
    while sum > 0xffff
        invariant
            fold_carries(sum as int) == fold_carries(total),
        decreases sum,
    {
        let carry = sum >> 16;
        assert(carry == sum / 0x10000) by (bit_vector)
            requires
                carry == sum >> 16,
        ;
        let low = sum & 0xffff;
        assert(low == sum % 0x10000) by (bit_vector)
            requires
                low == sum & 0xffff,
        ;
        sum = low + carry;
    }
    let r = #[verifier::truncate] ((!sum) as u16);
    assert(r == 0xffff - sum) by (bit_vector)
        requires
            r == (!sum) as u16,
            sum <= 0xffff,
    ;
    r
}

proof fn lemma_words_sum_monotone(data: Seq<u8>, n: int)
    requires
        0 <= n <= word_count(data),
    ensures
        forall|m: int| 0 <= m <= n ==> #[trigger] words_sum(data, m) <= words_sum(data, n),
        words_sum(data, n) >= 0,
    decreases n,
{
    if n > 0 {
        lemma_words_sum_monotone(data, n - 1);
        lemma_word_bound(data, n - 1);
    }
}

/// Folding the carries back in keeps the sum's value modulo 0xffff, the modulus of one's
/// complement arithmetic, and ends within 16 bits.
pub proof fn lemma_fold_carries_keeps_the_sum(sum: int)
    requires
        sum >= 0,
    ensures
        fold_carries(sum) % 0xffff == sum % 0xffff,
        0 <= fold_carries(sum) <= 0xffff,
    decreases sum,
{
    lemma_fold_bound(sum);
    if sum > 0xffff {
        let q = sum / 0x10000;
        let r = sum % 0x10000;
        assert(sum == q * 0x10000 + r);
        assert(q > 0);
        assert(r + q < sum) by (nonlinear_arith)
            requires
                sum == q * 0x10000 + r,
                q > 0,
                0 <= r,
        ;
        lemma_fold_carries_keeps_the_sum(r + q);
        assert((q * 0x10000 + r) % 0xffff == (r + q) % 0xffff) by (nonlinear_arith)
            requires
                q >= 0,
                r >= 0,
        {
            assert(q * 0x10000 + r == (r + q) + q * 0xffff);
            vstd::arithmetic::div_mod::lemma_mod_multiples_vanish(q, r + q, 0xffff);
        }
    }
}

/// The checksum is the one's complement of the data's words added in one's complement
/// arithmetic: checksum and folded sum add up to 0xffff, and the folded sum is the sum of
/// the words modulo 0xffff (0xffff standing for 0 when the words do not all vanish).
pub proof fn lemma_checksum_complements_the_sum(data: Seq<u8>)
    ensures
        ({
            let total = words_sum(data, word_count(data));
            &&& checksum_of(data) + fold_carries(total) == 0xffff
            &&& fold_carries(total) % 0xffff == total % 0xffff
            &&& 0 <= checksum_of(data) <= 0xffff
        }),
{
    lemma_words_sum_monotone(data, word_count(data));
    lemma_fold_carries_keeps_the_sum(words_sum(data, word_count(data)));
}

} // verus!
