//! Bitmaps kept as vectors of 64-bit words, bit `i` standing in word `i / 64`.

use vstd::prelude::*;

verus! {

/// Number of words that hold `n` bits.
pub open spec fn words_for(n: int) -> int {
    (n + 63) / 64
}

/// Whether bit `i` of the word `w` is set.
pub open spec fn word_bit(w: u64, i: u64) -> bool {
    w & (1u64 << i) != 0
}

/// Whether bit `i` of a bitmap is set.
pub open spec fn bit(words: Seq<u64>, i: int) -> bool {
    word_bit(words[i / 64], (i % 64) as u64)
}

/// All the bits of a bitmap, in order.
pub open spec fn bits(words: Seq<u64>) -> Seq<bool> {
    Seq::new((64 * words.len()) as nat, |i: int| bit(words, i))
}

/// The bits of a bitmap made for `n` entries, padding included: entry `i` is set where `set(i)`
/// holds, and the padding up to the end of the last word is clear.
pub open spec fn padded_bits(n: int, set: spec_fn(int) -> bool) -> Seq<bool> {
    Seq::new((64 * words_for(n)) as nat, |i: int| i < n && set(i))
}

/// A word whose bits are all clear is zero.
proof fn lemma_no_bits_is_zero(w: u64)
    requires
        forall|i: u64| i < 64 ==> !#[trigger] word_bit(w, i),
    ensures
        w == 0,
{
    if w != 0 {
        lemma_find_bit(w, 64);
    }
}

proof fn lemma_find_bit(w: u64, hi: u64)
    requires
        hi <= 64,
        w != 0,
        hi < 64 ==> w < (1u64 << hi),
    ensures
        exists|i: u64| i < hi && #[trigger] word_bit(w, i),
    decreases hi,
{
    assert(hi > 0) by {
        if hi == 0 {
            assert(1u64 << 0u64 == 1u64) by (bit_vector);
        }
    }
    let top = (hi - 1) as u64;
    if !word_bit(w, top) {
        assert(w < (1u64 << top)) by (bit_vector)
            requires
                w & (1u64 << top) == 0,
                top < 64,
                top < 63 ==> w < (1u64 << ((top + 1) as u64)),
        ;
        lemma_find_bit(w, top);
        let i = choose|i: u64| i < top && #[trigger] word_bit(w, i);
        assert(i < hi && word_bit(w, i));
    }
}

/// Two words with the same bits are equal.
proof fn lemma_word_ext(a: u64, b: u64)
    requires
        forall|i: u64| i < 64 ==> #[trigger] word_bit(a, i) == word_bit(b, i),
    ensures
        a == b,
{
    let x = a ^ b;
    assert forall|i: u64| i < 64 implies !#[trigger] word_bit(x, i) by {
        assert(word_bit(a, i) == word_bit(b, i));
        assert((a ^ b) & (1u64 << i) == (a & (1u64 << i)) ^ (b & (1u64 << i))) by (bit_vector);
        let m = a & (1u64 << i);
        let n = b & (1u64 << i);
        assert(m == n) by (bit_vector)
            requires
                i < 64,
                m == a & (1u64 << i),
                n == b & (1u64 << i),
                (a & (1u64 << i) != 0) == (b & (1u64 << i) != 0),
        ;
        assert(m ^ m == 0) by (bit_vector);
    }
    lemma_no_bits_is_zero(x);
    assert(a == b) by (bit_vector)
        requires
            a ^ b == 0,
    ;
}

/// The bits of a bitmap fix its words: two bitmaps with the same bits are the same vector.
pub proof fn bits_determine_words(a: Seq<u64>, b: Seq<u64>)
    requires
        bits(a) == bits(b),
    ensures
        a == b,
{
    assert(bits(a).len() == 64 * a.len() && bits(b).len() == 64 * b.len());
    assert forall|k: int| 0 <= k < a.len() implies a[k] == b[k] by {
        assert forall|i: u64| i < 64 implies #[trigger] word_bit(a[k], i) == word_bit(b[k], i) by {
            let g = 64 * k + i;
            assert(g / 64 == k && g % 64 == i as int);
            assert(bits(a)[g] == bit(a, g) && bits(b)[g] == bit(b, g));
        }
        lemma_word_ext(a[k], b[k]);
    }
    assert(a =~= b);
}

/// Appending words appends their bits.
pub proof fn bits_append(a: Seq<u64>, b: Seq<u64>)
    ensures
        bits(a + b) == bits(a) + bits(b),
{
    assert forall|i: int| 0 <= i < 64 * (a.len() + b.len()) implies #[trigger] bits(a + b)[i] == (
    bits(a) + bits(b))[i] by {
        if i >= 64 * a.len() {
            let j = i - 64 * a.len();
            assert(i / 64 == a.len() + j / 64 && i % 64 == j % 64);
        }
    }
    assert(bits(a + b) =~= bits(a) + bits(b));
}

/// The number of words that `n` bits take.
pub fn word_count(n: usize) -> (words: usize)
    ensures
        words == words_for(n as int),
{
    if n % 64 == 0 {
        n / 64
    } else {
        n / 64 + 1
    }
}

/// A bitmap for `n` entries with every bit clear.
pub fn zeroed(n: usize) -> (words: Vec<u64>)
    ensures
        words@.len() == words_for(n as int),
        bits(words@) == padded_bits(n as int, |i: int| false),
{
    let words: Vec<u64> = vec![0u64; word_count(n)];
    proof {
        assert forall|i: int| 0 <= i < 64 * words@.len() implies !#[trigger] bit(words@, i) by {
            let k = (i % 64) as u64;
            assert(words@[i / 64] == 0u64);
            assert(0u64 & (1u64 << k) == 0) by (bit_vector);
        }
        assert(bits(words@) =~= padded_bits(n as int, |i: int| false));
    }
    words
}

/// Reads bit `i`.
pub fn test_bit(words: &[u64], i: usize) -> (set: bool)
    requires
        i < 64 * words@.len(),
    ensures
        set == bit(words@, i as int),
        set == (words@[i as int / 64] & (1u64 << ((i % 64) as u64)) != 0),
{
    let shift: u64 = (i % 64) as u64;
    (words[i / 64] & (1u64 << shift)) != 0
}

/// Sets bit `i`.
pub fn set_bit(words: &mut Vec<u64>, i: usize)
    requires
        i < 64 * old(words)@.len(),
    ensures
        final(words)@.len() == old(words)@.len(),
        bits(final(words)@) == bits(old(words)@).update(i as int, true),
{
    let ghost before = words@;
    let shift: u64 = (i % 64) as u64;
    let word = words[i / 64];
    words.set(i / 64, word | (1u64 << shift));
    proof {
        assert forall|j: int| 0 <= j < 64 * before.len() implies #[trigger] bits(words@)[j] == bits(
            before,
        ).update(i as int, true)[j] by {
            if j / 64 == i as int / 64 {
                let k = (j % 64) as u64;
                assert(word_bit(word | (1u64 << shift), k) == (k == shift || word_bit(word, k)))
                    by (bit_vector)
                    requires
                        k < 64,
                        shift < 64,
                ;
            }
        }
        assert(bits(words@) =~= bits(before).update(i as int, true));
    }
}

/// How many of the bits are set.
pub open spec fn set_count(s: Seq<bool>) -> int
    decreases s.len(),
{
    if s.len() == 0 {
        0
    } else {
        set_count(s.drop_last()) + if s.last() {
            1int
        } else {
            0
        }
    }
}

/// The set bits of two bitmaps laid end to end add up.
pub proof fn set_count_append(a: Seq<bool>, b: Seq<bool>)
    ensures
        set_count(a + b) == set_count(a) + set_count(b),
    decreases b.len(),
{
    if b.len() == 0 {
        assert(a + b =~= a);
    } else {
        set_count_append(a, b.drop_last());
        assert((a + b).drop_last() =~= a + b.drop_last());
        assert((a + b).last() == b.last());
    }
}

/// A word whose set bits are all set in another has nothing outside it.
pub proof fn word_within(a: u64, b: u64)
    requires
        forall|i: u64| i < 64 && #[trigger] word_bit(a, i) ==> word_bit(b, i),
    ensures
        a & !b == 0,
{
    let x = a & !b;
    assert forall|i: u64| i < 64 implies !#[trigger] word_bit(x, i) by {
        if word_bit(x, i) {
            assert(a & (1u64 << i) != 0 && b & (1u64 << i) == 0) by (bit_vector)
                requires
                    i < 64,
                    (a & !b) & (1u64 << i) != 0,
            ;
            assert(word_bit(a, i));
        }
    }
    lemma_no_bits_is_zero(x);
}

} // verus!
