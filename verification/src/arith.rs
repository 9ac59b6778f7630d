//! Powers of two and ring index arithmetic.

use vstd::arithmetic::div_mod::{
    lemma_fundamental_div_mod, lemma_fundamental_div_mod_converse, lemma_mod_multiples_vanish,
    lemma_mod_pos_bound,
};
use vstd::arithmetic::power::pow;
use vstd::arithmetic::power2::{
    is_pow2, is_pow2_equiv, lemma2_to64, lemma_pow2_adds, lemma_pow2_pos,
    lemma_pow2_strictly_increases, pow2,
};
use vstd::bits::lemma_usize_low_bits_mask_is_mod;
use vstd::prelude::*;

verus! {

/// The cell of a ring of `capacity` cells in which the frame numbered `index` lies.
pub open spec fn cell_of(index: int, capacity: int) -> int {
    index % capacity
}

/// A power of two is at least 1.
pub proof fn lemma_pow2_at_least_one(n: int)
    requires
        is_pow2(n),
    ensures
        n >= 1,
{
    reveal(is_pow2);
}

/// A power of two that fits a `usize` is two to a power below the word size.
pub proof fn lemma_pow2_exponent(capacity: usize) -> (e: nat)
    requires
        is_pow2(capacity as int),
    ensures
        pow2(e) == capacity,
        e < usize::BITS,
        capacity >= 1,
{
    is_pow2_equiv(capacity as int);
    let e = choose|i: nat| pow(2, i) == capacity as int;
    lemma_pow2_pos(e);
    if e >= usize::BITS {
        lemma2_to64();
        if e > usize::BITS {
            lemma_pow2_strictly_increases(usize::BITS as nat, e);
        }
        assert(false);
    }
    e
}

/// The word size is a multiple of every power of two that fits a `usize`.
pub proof fn lemma_word_is_multiple(capacity: usize) -> (q: int)
    requires
        is_pow2(capacity as int),
    ensures
        usize::MAX + 1 == capacity * q,
        capacity >= 1,
{
    let e = lemma_pow2_exponent(capacity);
    let rest = (usize::BITS - e) as nat;
    lemma_pow2_adds(e, rest);
    lemma2_to64();
    pow2(rest) as int
}

/// Masking a frame index with `capacity - 1` gives the cell that the index lies in.
pub proof fn lemma_mask_is_cell(index: usize, capacity: usize)
    requires
        is_pow2(capacity as int),
    ensures
        capacity >= 1,
        index & ((capacity - 1) as usize) == cell_of(index as int, capacity as int),
        0 <= cell_of(index as int, capacity as int) < capacity,
{
    let e = lemma_pow2_exponent(capacity);
    lemma_usize_low_bits_mask_is_mod(index, e);
    lemma_mod_pos_bound(index as int, capacity as int);
}

/// A frame index that wrapped round the word size lies in the cell of the index it stands for.
pub proof fn lemma_wrapped_index_cell(base: usize, offset: usize, capacity: usize)
    requires
        is_pow2(capacity as int),
    ensures
        cell_of(base.wrapping_add(offset) as int, capacity as int) == cell_of(
            base + offset,
            capacity as int,
        ),
{
    let q = lemma_word_is_multiple(capacity);
    if base + offset > usize::MAX {
        let x = base + offset - (usize::MAX + 1);
        lemma_mod_multiples_vanish(q, x, capacity as int);
    }
}

/// A count of frames and the cursor that counts them round the word size
/// put every frame in the same cell: `total + k` and `cursor + k` lie in one cell.
pub proof fn lemma_cell_round_word(total: int, cursor: usize, k: int, capacity: usize)
    requires
        is_pow2(capacity as int),
        total % (usize::MAX + 1) == cursor,
    ensures
        cell_of(total + k, capacity as int) == cell_of(cursor + k, capacity as int),
{
    let word = usize::MAX + 1;
    let q = lemma_word_is_multiple(capacity);
    let t = total / word;
    lemma_fundamental_div_mod(total, word);
    assert(word * t == capacity * (q * t)) by (nonlinear_arith)
        requires
            word == capacity * q,
    ;
    lemma_mod_multiples_vanish(q * t, cursor + k, capacity as int);
}

/// The cursor after `frames` more frames counts `total + frames` round the
/// word size, if it counted `total` before.
pub proof fn lemma_cursor_counts_on(total: int, cursor: usize, frames: usize)
    requires
        total % (usize::MAX + 1) == cursor,
    ensures
        (total + frames) % (usize::MAX + 1) == cursor.wrapping_add(frames),
{
    let word = usize::MAX + 1;
    let t = total / word;
    lemma_fundamental_div_mod(total, word);
    if cursor + frames > usize::MAX {
        assert(total + frames == (t + 1) * word + (cursor + frames - word)) by (nonlinear_arith)
            requires
                total == word * t + cursor,
        ;
        lemma_fundamental_div_mod_converse(total + frames, word, t + 1, cursor + frames - word);
    } else {
        assert(total + frames == t * word + (cursor + frames)) by (nonlinear_arith)
            requires
                total == word * t + cursor,
        ;
        lemma_fundamental_div_mod_converse(total + frames, word, t, cursor + frames);
    }
}

/// Two frames less than `capacity` apart lie in different cells.
pub proof fn lemma_cells_differ(index: int, gap: int, capacity: int)
    requires
        0 < gap < capacity,
    ensures
        cell_of(index + gap, capacity) != cell_of(index, capacity),
{
    lemma_fundamental_div_mod(index, capacity);
    lemma_fundamental_div_mod(index + gap, capacity);
    if (index + gap) % capacity == index % capacity {
        let d = (index + gap) / capacity - index / capacity;
        assert(gap == capacity * d) by (nonlinear_arith)
            requires
                index == capacity * (index / capacity) + (index % capacity),
                index + gap == capacity * ((index + gap) / capacity) + (index % capacity),
                d == (index + gap) / capacity - index / capacity,
        ;
        assert(false) by (nonlinear_arith)
            requires
                gap == capacity * d,
                0 < gap < capacity,
        ;
    }
}

/// Two frames `capacity` apart lie in the same cell.
pub proof fn lemma_cell_period(index: int, capacity: int)
    requires
        0 < capacity,
    ensures
        cell_of(index + capacity, capacity) == cell_of(index, capacity),
{
    lemma_mod_multiples_vanish(1, index, capacity);
}

/// Whether `n` is a power of two.
pub fn is_power_of_two(n: usize) -> (b: bool)
    ensures
        b == is_pow2(n as int),
{
    if n == 0 {
        proof {
            reveal(is_pow2);
        }
        return false;
    }
    let mut m: usize = n;
    while m % 2 == 0
        invariant
            m >= 1,
            is_pow2(m as int) == is_pow2(n as int),
        decreases m,
    {
        proof {
            reveal(is_pow2);
        }
        m = m / 2;
    }
    proof {
        reveal(is_pow2);
    }
    m == 1
}

} // verus!
