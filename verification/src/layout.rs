//! How a file is divided: pages from the front, two allocator states at the back.
use crate::memory::TransactionalMemory;
use crate::page_allocator::{state_size, PageAllocator};
use vstd::arithmetic::div_mod::lemma_div_is_ordered;
use vstd::arithmetic::div_mod::lemma_fundamental_div_mod;
use vstd::arithmetic::div_mod::lemma_hoist_over_denominator;
use vstd::arithmetic::mul::lemma_mul_inequality;
use vstd::arithmetic::power2::lemma2_to64;
use vstd::arithmetic::power2::lemma_pow2_pos;
use vstd::arithmetic::power2::lemma_pow2_unfold;
use vstd::arithmetic::power2::pow2;
use vstd::prelude::*;

verus! {

/// The size of the metapage: the header and the two transaction slots.
pub const DB_METAPAGE_SIZE: usize = 384;

/// How many pages fit into `len` bytes beside two allocator states for `guess` pages.
pub open spec fn pages_beside(len: int, page_size: int, guess: int) -> int {
    (len - 2 * state_size(guess)) / page_size
}

/// `count` pages and the two allocator states for them fit into `len` bytes.
pub open spec fn pages_fit(len: int, page_size: int, count: int) -> bool {
    count * page_size + 2 * state_size(count) <= len
}

/// `count` is the largest number of pages that fit beside two allocator states
/// that leave the last page out.
pub open spec fn is_usable_page_count(len: int, page_size: int, count: int) -> bool {
    &&& 0 <= count
    &&& count * page_size + 2 * state_size(count - 1) <= len
    &&& len < (count + 1) * page_size + 2 * state_size(count)
}

/// No length has two usable page counts.
pub proof fn lemma_usable_page_count_unique(len: int, page_size: int, a: int, b: int)
    requires
        0 < page_size,
        is_usable_page_count(len, page_size, a),
        is_usable_page_count(len, page_size, b),
    ensures
        a == b,
{
    if a < b {
        lemma_mul_inequality(a + 1, b, page_size);
    }
    if b < a {
        lemma_mul_inequality(b + 1, a, page_size);
    }
}

/// All usable pages lie inside the file. They fit beside both allocator states,
/// and one more would not; or, where the count does not settle, the last page
/// reaches at most two bytes into the first allocator state and one page fewer
/// fits.
pub proof fn lemma_usable_pages_in_file(len: int, page_size: int, count: int)
    requires
        DB_METAPAGE_SIZE <= page_size,
        0 <= len,
        is_usable_page_count(len, page_size, count),
    ensures
        count * page_size <= len,
        2 * state_size(count) <= len,
        count * page_size <= len - 2 * state_size(count) + 2,
        count >= 1 <==> page_size <= len,
        !pages_fit(len, page_size, count + 1),
        pages_fit(len, page_size, count) || (count >= 1 && pages_fit(len, page_size, count - 1)),
{
    assert(count * page_size >= DB_METAPAGE_SIZE * count && (count >= 1 ==> count * page_size
        >= page_size) && (count + 1) * page_size == count * page_size + page_size && (count - 1)
        * page_size == count * page_size - page_size) by (nonlinear_arith)
        requires
            DB_METAPAGE_SIZE <= page_size,
            0 <= count,
    ;
    assert(0 * page_size == 0) by (nonlinear_arith);
}

/// A quotient moves by at most `m` where the dividend moves by at most `m` divisors.
proof fn lemma_quotient_step(x: int, y: int, divisor: int, m: int)
    requires
        0 < divisor,
        x <= y + divisor * m,
    ensures
        x / divisor <= y / divisor + m,
{
    lemma_div_is_ordered(x, y + divisor * m, divisor);
    lemma_hoist_over_denominator(y, m, divisor as nat);
    assert(divisor * m == m * divisor) by (nonlinear_arith);
}

/// One round of estimating halves the distance to the next estimate, down to one.
proof fn lemma_estimate_step(len: int, page_size: int, guess: int, next: int)
    requires
        DB_METAPAGE_SIZE <= page_size,
        0 <= guess,
        0 <= next,
        guess != next,
        next == pages_beside(len, page_size, guess),
    ensures
        ({
            let d = if guess < next { next - guess } else { guess - next };
            let after = pages_beside(len, page_size, next);
            let bound = if d == 1 { 1 } else { d / 2 };
            &&& guess < next ==> next - bound <= after <= next
            &&& next < guess ==> next <= after <= next + bound
        }),
{
    let d = if guess < next { next - guess } else { guess - next };
    let bound = if d == 1 { 1 } else { d / 2 };
    let x = len - 2 * state_size(guess);
    let y = len - 2 * state_size(next);
    assert(page_size * bound >= DB_METAPAGE_SIZE * bound) by (nonlinear_arith)
        requires
            DB_METAPAGE_SIZE <= page_size,
            0 <= bound,
    ;
    if guess < next {
        assert(y <= x <= y + page_size * bound);
        lemma_quotient_step(x, y, page_size, bound);
        lemma_div_is_ordered(y, x, page_size);
    } else {
        assert(x <= y <= x + page_size * bound);
        lemma_quotient_step(y, x, page_size, bound);
        lemma_div_is_ordered(x, y, page_size);
    }
}

/// Allocator states for a number of pages no larger than the file holds leave
/// room, and so the next estimate is no larger either.
proof fn lemma_estimate_bounds(len: int, page_size: int, guess: int)
    requires
        DB_METAPAGE_SIZE <= page_size,
        0 <= len,
        0 <= guess <= len / page_size,
    ensures
        2 * state_size(guess) <= len,
        0 <= pages_beside(len, page_size, guess) <= len / page_size,
{
    lemma_fundamental_div_mod(len, page_size);
    assert(page_size * (len / page_size) >= DB_METAPAGE_SIZE * (len / page_size)) by (nonlinear_arith)
        requires
            DB_METAPAGE_SIZE <= page_size,
            0 <= len / page_size,
    ;
    lemma_div_is_ordered(len - 2 * state_size(guess), len, page_size);
    lemma_div_is_ordered(0, len - 2 * state_size(guess), page_size);
}

/// An estimate that stays, or that was reached from one below and falls back to
/// it, is the usable page count.
proof fn lemma_estimate_result(len: int, page_size: int, guess: int)
    requires
        DB_METAPAGE_SIZE <= page_size,
        0 <= len,
        0 <= guess,
        ({
            let next = pages_beside(len, page_size, guess);
            next == guess || (next == guess - 1 && pages_beside(len, page_size, guess - 1) == guess)
        }),
    ensures
        is_usable_page_count(len, page_size, guess),
{
    let next = pages_beside(len, page_size, guess);
    let x = len - 2 * state_size(guess);
    lemma_fundamental_div_mod(x, page_size);
    assert(page_size * next + x % page_size == x);
    assert(0 <= x % page_size < page_size) by (nonlinear_arith)
        requires
            0 < page_size,
    ;
    assert(page_size * guess == guess * page_size && page_size * (guess - 1) == guess * page_size
        - page_size && (guess + 1) * page_size == guess * page_size + page_size)
        by (nonlinear_arith);
    if next != guess {
        let y = len - 2 * state_size(guess - 1);
        lemma_fundamental_div_mod(y, page_size);
        assert(0 <= y % page_size) by (nonlinear_arith)
            requires
                0 < page_size,
        ;
    }
}

impl TransactionalMemory {
    /// The number of pages that a file of `mmap_size` bytes holds beside two
    /// allocator states, found by repeated estimates.
    pub fn calculate_usable_pages(mmap_size: usize, page_size: usize) -> (count: usize)
        requires
            DB_METAPAGE_SIZE <= page_size,
        ensures
            is_usable_page_count(mmap_size as int, page_size as int, count as int),
    {
        let ghost len = mmap_size as int;
        let ghost size = page_size as int;
        let mut guess: usize = mmap_size / page_size;
        proof {
            lemma_estimate_bounds(len, size, guess as int);
            lemma2_to64();
        }
        let mut new_guess: usize = (mmap_size - 2 * PageAllocator::required_space(guess)) / page_size;
        let ghost mut previous: int = guess as int;
        // Make sure the loop ends: the estimates may oscillate.
        let mut i: usize = 0;
        while guess != new_guess && i < 1000
            invariant
                len == mmap_size,
                size == page_size,
                DB_METAPAGE_SIZE <= page_size,
                i <= 1000,
                guess <= len / size,
                new_guess == pages_beside(len, size, guess as int),
                i % 2 == 0 ==> new_guess <= guess,
                i % 2 == 1 ==> guess <= new_guess,
                i < 64 ==> -pow2((64 - i) as nat) < guess - new_guess < pow2((64 - i) as nat),
                i >= 63 ==> -1 <= guess - new_guess <= 1,
                i >= 1 ==> guess == pages_beside(len, size, previous),
                i >= 64 ==> -1 <= guess - previous <= 1,
                i >= 1 && i % 2 == 0 ==> previous <= guess,
            decreases 1000 - i,
        {
            proof {
                previous = guess as int;
                lemma_estimate_step(len, size, guess as int, new_guess as int);
                if i < 63 {
                    lemma_pow2_unfold((64 - i) as nat);
                    lemma_pow2_unfold((63 - i) as nat);
                    lemma_pow2_pos((62 - i) as nat);
                }
                if i == 62 || i == 63 {
                    lemma2_to64();
                }
            }
            guess = new_guess;
            proof {
                lemma_estimate_bounds(len, size, previous);
                lemma_estimate_bounds(len, size, guess as int);
            }
            new_guess = (mmap_size - 2 * PageAllocator::required_space(guess)) / page_size;
            i = i + 1;
        }
        proof {
            lemma_estimate_result(len, size, guess as int);
        }
        guess
    }
}

/// The usable page count is the number that estimating settles on: the number of pages
/// that fit beside allocator states for as many pages, each of which has a bit for
/// every page; or, where the estimates go back and forth between two numbers, the
/// larger one.
pub proof fn law_usable_page_count(len: int, page_size: int, count: int)
    requires
        DB_METAPAGE_SIZE <= page_size,
        0 <= len,
        0 <= count,
    ensures
        ({
            let beside = (len - 2 * ((count + 7) / 8)) / page_size;
            let beside_fewer = (len - 2 * ((count + 6) / 8)) / page_size;
            is_usable_page_count(len, page_size, count) <==> beside == count || (beside == count - 1
                && beside_fewer == count)
        }),
{
    if is_usable_page_count(len, page_size, count) {
        let x = len - 2 * state_size(count);
        let y = len - 2 * state_size(count - 1);
        assert((count + 1) * page_size == count * page_size + page_size && (count - 1) * page_size
            == count * page_size - page_size) by (nonlinear_arith);
        if count * page_size <= x {
            lemma_quotient(x, page_size, count);
        } else {
            lemma_quotient(x, page_size, count - 1);
            lemma_quotient(y, page_size, count);
        }
    } else if pages_beside(len, page_size, count) == count || (pages_beside(len, page_size, count)
        == count - 1 && pages_beside(len, page_size, count - 1) == count) {
        lemma_estimate_result(len, page_size, count);
    }
}

/// A number between two multiples has the lower factor as its quotient.
proof fn lemma_quotient(x: int, divisor: int, quotient: int)
    requires
        0 < divisor,
        quotient * divisor <= x < (quotient + 1) * divisor,
    ensures
        x / divisor == quotient,
{
    lemma_fundamental_div_mod(x, divisor);
    let q = x / divisor;
    let r = x % divisor;
    assert(q == quotient) by (nonlinear_arith)
        requires
            x == divisor * q + r,
            0 <= r < divisor,
            0 < divisor,
            quotient * divisor <= x < (quotient + 1) * divisor,
    ;
}

} // verus!
