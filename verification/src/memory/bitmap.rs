//! A bitmap over machine words: bit `i` set means block `i` is free.

use bit_field::BitField;
use vstd::prelude::*;
use vstd::std_specs::bits::{axiom_u64_trailing_zeros, u64_trailing_zeros};

verus! {

/// The number of bits in one word of a bitmap.
pub const BLOCK_BITS: usize = 64;

/// Bit `j` of the word `w`, counted from the least significant one.
pub open spec fn word_bit(w: u64, j: u64) -> bool {
    (w >> j) & 1u64 == 1u64
}

/// The word `w` with bit `b` set to `value`.
pub open spec fn word_with_bit(w: u64, b: u64, value: bool) -> u64 {
    if value {
        w | (1u64 << b)
    } else {
        w & !(1u64 << b)
    }
}

/// How many entries of `s` are true.
pub open spec fn count_true(s: Seq<bool>) -> nat
    decreases s.len(),
{
    if s.len() == 0 {
        0
    } else {
        count_true(s.drop_last()) + if s.last() {
            1nat
        } else {
            0nat
        }
    }
}

/// No sequence has more true entries than entries.
pub proof fn lemma_count_true_bound(s: Seq<bool>)
    ensures
        count_true(s) <= s.len(),
    decreases s.len(),
{
    if s.len() > 0 {
        lemma_count_true_bound(s.drop_last());
    }
}

/// The count is zero exactly when no entry is true.
pub proof fn lemma_count_true_zero(s: Seq<bool>)
    ensures
        count_true(s) == 0 <==> (forall|i: int| 0 <= i < s.len() ==> !s[i]),
    decreases s.len(),
{
    if s.len() > 0 {
        let t = s.drop_last();
        lemma_count_true_zero(t);
        if count_true(s) == 0 {
            assert forall|i: int| 0 <= i < s.len() implies !s[i] by {
                if i < s.len() - 1 {
                    assert(t[i] == s[i]);
                }
            }
        } else {
            if forall|i: int| 0 <= i < s.len() ==> !s[i] {
                assert(!s.last());
                assert forall|i: int| 0 <= i < t.len() implies !t[i] by {
                    assert(t[i] == s[i]);
                }
            }
        }
    }
}

/// Changing one entry changes the count by that entry's change.
pub proof fn lemma_count_true_update(s: Seq<bool>, i: int, v: bool)
    requires
        0 <= i < s.len(),
    ensures
        count_true(s.update(i, v)) + (if s[i] { 1int } else { 0int })
            == count_true(s) + (if v { 1int } else { 0int }),
    decreases s.len(),
{
    let u = s.update(i, v);
    if i == s.len() - 1 {
        assert(u.drop_last() =~= s.drop_last());
    } else {
        lemma_count_true_update(s.drop_last(), i, v);
        assert(u.drop_last() =~= s.drop_last().update(i, v));
    }
}

/// A bit that was set reads as set, and reads as clear after it was cleared;
/// no other bit changes on the way.
pub proof fn lemma_set_clear_round_trip(bits: Seq<bool>, i: int)
    requires
        0 <= i < bits.len(),
    ensures
        bits.update(i, true)[i],
        !bits.update(i, true).update(i, false)[i],
        forall|j: int|
            0 <= j < bits.len() && j != i ==> bits.update(i, true).update(i, false)[j] == bits[j],
        bits.update(i, true).update(i, false) == bits.update(i, false),
{
    assert(bits.update(i, true).update(i, false) =~= bits.update(i, false));
}

/// What setting or clearing bit `b` does to every bit of a word.
proof fn lemma_word_with_bit(w: u64, b: u64)
    by (bit_vector)
    requires
        b < 64,
    ensures
        forall|j: u64|
            j < 64 ==> (#[trigger] ((w | (1u64 << b)) >> j) & 1u64 == 1u64) == (j == b || (w >> j)
                & 1u64 == 1u64),
        forall|j: u64|
            j < 64 ==> (#[trigger] ((w & !(1u64 << b)) >> j) & 1u64 == 1u64) == (j != b && (w
                >> j) & 1u64 == 1u64),
        forall|j: u64| j < 64 ==> (#[trigger] (0u64 >> j)) & 1u64 == 0u64,
{
}

/// Reads bit `bit` of `word` with `BitField::get_bit` of the crate
/// `bit_field`, which returns whether `word & (1 << bit)` is not zero and
/// panics for a bit index of 64 or more.
#[verifier::external_body]
fn get_bit(word: u64, bit: usize) -> (r: bool)
    requires
        bit < 64,
    ensures
        r == (word & (1u64 << (bit as u64)) != 0),
{
    word.get_bit(bit)
}

/// Sets bit `bit` of `word` to `value` with `BitField::set_bit` of the crate
/// `bit_field`, which ors `1 << bit` into the word or masks it out and panics
/// for a bit index of 64 or more.
#[verifier::external_body]
fn set_bit(word: u64, bit: usize, value: bool) -> (r: u64)
    requires
        bit < 64,
    ensures
        r == word_with_bit(word, bit as u64, value),
{
    let mut w = word;
    w.set_bit(bit, value);
    w
}

/// A sequence of bits held in 64-bit words.
#[derive(Debug)]
pub struct Bitmap {
    bitmap: Vec<u64>,
}

impl Bitmap {
    /// The bits, lowest index first.
    pub closed spec fn view(&self) -> Seq<bool> {
        Seq::new(
            (self.bitmap@.len() * 64) as nat,
            |i: int| word_bit(self.bitmap@[i / 64], (i % 64) as u64),
        )
    }

    /// The number of bits fits a machine word.
    pub closed spec fn wf(&self) -> bool {
        self.bitmap@.len() * 64 <= usize::MAX
    }

    /// The number of words that hold `bits` bits.
    pub open spec fn blocks_for(bits: int) -> int {
        if bits % 64 == 0 {
            bits / 64
        } else {
            bits / 64 + 1
        }
    }

    /// The number of bits of a well-formed bitmap fits a machine word.
    pub proof fn lemma_len_fits(&self)
        requires
            self.wf(),
        ensures
            self@.len() <= usize::MAX,
            self@.len() % 64 == 0,
    {
    }

    /// A bitmap without bits.
    pub fn empty() -> (r: Self)
        ensures
            r.wf(),
            r@.len() == 0,
    {
        Self { bitmap: Vec::new() }
    }

    /// A bitmap of at least `size` bits, rounded up to whole words, all clear.
    pub fn new_in(size: usize) -> (r: Self)
        requires
            size + 64 <= usize::MAX,
        ensures
            r.wf(),
            r@.len() == Self::blocks_for(size as int) * 64,
            r@.len() >= size,
            forall|i: int| 0 <= i < r@.len() ==> !r@[i],
    {
        let blocks = Self::calculate_blocks(size);
        let mut bitmap: Vec<u64> = Vec::new();
        bitmap.resize(blocks, 0);
        let r = Self { bitmap };
        proof {
            lemma_word_with_bit(0, 0);
            assert forall|i: int| 0 <= i < r@.len() implies !r@[i] by {
                assert(r.bitmap@[i / 64] == 0u64);
                assert((0u64 >> ((i % 64) as u64)) & 1u64 == 0u64);
            }
        }
        r
    }

    /// Sets bit `idx` to `val`; an index past the end changes nothing.
    pub fn set(&mut self, idx: usize, val: bool)
        requires
            old(self).wf(),
        ensures
            final(self).wf(),
            idx < old(self)@.len() ==> final(self)@ == old(self)@.update(idx as int, val),
            idx >= old(self)@.len() ==> final(self)@ == old(self)@,
    {
        let (block_idx, bit_idx) = Self::get_index(idx);
        if block_idx < self.bitmap.len() {
            let word = self.bitmap[block_idx];
            let updated = set_bit(word, bit_idx, val);
            self.bitmap.set(block_idx, updated);
            proof {
                lemma_word_with_bit(word, bit_idx as u64);
                let a = old(self)@.update(idx as int, val);
                let b = self@;
                assert(a.len() == b.len());
                assert forall|i: int| 0 <= i < a.len() implies a[i] == b[i] by {
                    if i / 64 == block_idx as int {
                        let j = (i % 64) as u64;
                        assert(j < 64);
                        assert(self.bitmap@[i / 64] == updated);
                        assert(old(self).bitmap@[i / 64] == word);
                        if i == idx as int {
                        } else {
                            assert(j != bit_idx as u64);
                        }
                    } else {
                        assert(i != idx as int);
                    }
                }
                assert(a =~= b);
            }
        } else {
            assert(self@ =~= old(self)@);
        }
    }

    /// Whether bit `idx` is set.
    pub fn is_set(&self, idx: usize) -> (r: bool)
        requires
            idx < self@.len(),
        ensures
            r == self@[idx as int],
    {
        let (block_idx, bit_idx) = Self::get_index(idx);
        let word = self.bitmap[block_idx];
        proof {
            lemma_bit_test(word, bit_idx as u64);
        }
        get_bit(word, bit_idx)
    }

    /// The lowest index whose bit is set, if any bit is.
    pub fn find_first_set(&self) -> (r: Option<usize>)
        requires
            self.wf(),
        ensures
            match r {
                Some(i) => i < self@.len() && self@[i as int] && forall|j: int|
                    0 <= j < i ==> !self@[j],
                None => forall|j: int| 0 <= j < self@.len() ==> !self@[j],
            },
    {
        let mut i: usize = 0;
        while i < self.bitmap.len()
            invariant
                self.wf(),
                i <= self.bitmap@.len(),
                forall|j: int| 0 <= j < i * 64 ==> !self@[j],
            decreases self.bitmap@.len() - i,
        {
            let block = self.bitmap[i];
            let trailing_zeros = block.trailing_zeros();
            proof {
                axiom_u64_trailing_zeros(block);
            }
            if trailing_zeros < 64 {
                let found = i * BLOCK_BITS + trailing_zeros as usize;
                proof {
                    assert(found as int / 64 == i as int);
                    assert(found as int % 64 == trailing_zeros as int);
                    assert forall|j: int| 0 <= j < found implies !self@[j] by {
                        if j >= i * 64 {
                            let k = (j % 64) as u64;
                            assert(j / 64 == i as int);
                            assert(k < u64_trailing_zeros(block));
                            assert((block >> k) & 1u64 == 0u64);
                        }
                    }
                }
                return Some(found);
            }
            proof {
                lemma_word_with_bit(0, 0);
                assert(block == 0);
                assert forall|j: int| 0 <= j < (i + 1) * 64 implies !self@[j] by {
                    if j >= i * 64 {
                        assert(j / 64 == i as int);
                        assert((0u64 >> ((j % 64) as u64)) & 1u64 == 0u64);
                    }
                }
            }
            i += 1;
        }
        None
    }

    /// The word that holds bit `idx`, and the bit's place in that word.
    pub fn get_index(idx: usize) -> (r: (usize, usize))
        ensures
            r.0 == idx / 64,
            r.1 == idx % 64,
    {
        (idx / BLOCK_BITS, idx % BLOCK_BITS)
    }

    /// The number of words that hold `bits` bits.
    pub fn calculate_blocks(bits: usize) -> (r: usize)
        ensures
            r == Self::blocks_for(bits as int),
            r * 64 >= bits,
            r * 64 < bits + 64,
    {
        if bits % BLOCK_BITS == 0 {
            bits / BLOCK_BITS
        } else {
            bits / BLOCK_BITS + 1
        }
    }
}

/// Testing a bit by mask agrees with testing it by shift.
proof fn lemma_bit_test(w: u64, b: u64)
    by (bit_vector)
    requires
        b < 64,
    ensures
        (w & (1u64 << b) != 0) == ((w >> b) & 1u64 == 1u64),
{
}

} // verus!
