//! What the operations come to, said in words, bytes and addresses.
//!
//! The contracts of the library speak of spec functions. The laws here say what those amount to for
//! a caller: which bit of which word stands for which page, which address is read for it, which
//! bytes a blob holds. Where slots stand one behind the other, a law takes the running totals of
//! their sizes as an input.

pub mod checkpoints;
pub mod control;
pub mod guest;
pub mod reports;
pub mod scanning;

use crate::bitmap::{bit, bits, padded_bits, set_count, words_for};
use crate::memory::words_before;
use vstd::prelude::*;

verus! {

/// Whether `sums` are the running totals of `parts`, from nothing at all to all of them.
pub open spec fn running_totals(sums: Seq<int>, parts: Seq<int>) -> bool {
    &&& sums.len() == parts.len() + 1
    &&& sums[0] == 0
    &&& forall|k: int| 0 <= k < parts.len() ==> sums[k + 1] == sums[k] + #[trigger] parts[k]
}

/// Words that a bitmap takes for the whole units of each length.
pub open spec fn bitmap_words(lens: Seq<int>, unit: int) -> Seq<int> {
    Seq::new(lens.len(), |k: int| (lens[k] / unit + 63) / 64)
}

/// The running totals of bitmap sizes are where the slots' bitmaps begin.
pub proof fn bitmaps_begin_at_totals(lens: Seq<int>, unit: int, sums: Seq<int>, n: int)
    requires
        running_totals(sums, bitmap_words(lens, unit)),
        0 <= n <= lens.len(),
    ensures
        words_before(lens, unit, n) == sums[n],
    decreases n,
{
    if n > 0 {
        bitmaps_begin_at_totals(lens, unit, sums, n - 1);
        assert(bitmap_words(lens, unit)[n - 1] == (lens[n - 1] / unit + 63) / 64);
    }
}

/// The words that `n` entries take hold them, and one word less would not.
pub proof fn words_are_just_enough(n: int)
    requires
        0 <= n,
    ensures
        n <= 64 * words_for(n) < n + 64,
{
}

/// Entry `i` of a bitmap is bit `i % 64`, from the low end, of word `i / 64`.
pub proof fn entry_is_bit_of_word(words: Seq<u64>, i: int)
    requires
        0 <= i < 64 * words.len(),
    ensures
        bits(words).len() == 64 * words.len(),
        bits(words)[i] == (words[i / 64] & (1u64 << ((i % 64) as u64)) != 0),
        bit(words, i) == (words[i / 64] & (1u64 << ((i % 64) as u64)) != 0),
{
}

/// A fresh bitmap made for `n` entries has the entries that hold, and nothing behind them.
pub proof fn padded_entries(n: int, set: spec_fn(int) -> bool, i: int)
    requires
        0 <= n,
        0 <= i < 64 * ((n + 63) / 64),
    ensures
        padded_bits(n, set).len() == 64 * ((n + 63) / 64),
        padded_bits(n, set)[i] == (i < n && set(i)),
{
}

/// A clear bitmap has no set bits, and setting a bit that was clear adds one.
pub proof fn setting_a_bit_counts_one(s: Seq<bool>, i: int)
    requires
        0 <= i < s.len(),
        !s[i],
    ensures
        set_count(s.update(i, true)) == set_count(s) + 1,
    decreases s.len(),
{
    let last = s.len() - 1;
    let t = s.update(i, true);
    if i == last {
        assert(t.drop_last() =~= s.drop_last());
    } else {
        setting_a_bit_counts_one(s.drop_last(), i);
        assert(t.drop_last() =~= s.drop_last().update(i, true));
    }
}

} // verus!
