use vstd::arithmetic::div_mod::{lemma_div_of0, lemma_multiply_divide_le, lemma_multiply_divide_lt};
use vstd::arithmetic::mul::{
    lemma_mul_inequality, lemma_mul_is_commutative, lemma_mul_strict_inequality,
    lemma_mul_upper_bound,
};
use vstd::prelude::*;

verus! {

/// Column where a progress event's blocks start: the offset the write began
/// at, mapped proportionally onto the terminal width and counted from the
/// column the cursor was saved at. Stays below `base_column + terminal_width`.
pub fn block_column(base_column: u16, terminal_width: u16, offset: u64, total_size: u64) -> (col:
    u16)
    requires
        total_size >= 1,
        offset < total_size,
        base_column + terminal_width <= u16::MAX,
    ensures
        col == base_column + (terminal_width as int * offset as int) / (total_size as int),
{
    proof {
        lemma_mul_upper_bound(terminal_width as int, u16::MAX as int, offset as int, u64::MAX as int);
        if terminal_width > 0 {
            lemma_mul_strict_inequality(offset as int, total_size as int, terminal_width as int);
            lemma_mul_is_commutative(offset as int, terminal_width as int);
            lemma_mul_is_commutative(total_size as int, terminal_width as int);
            lemma_multiply_divide_lt(
                terminal_width as int * offset as int,
                total_size as int,
                terminal_width as int,
            );
        } else {
            lemma_div_of0(total_size as int);
        }
    }
    let scaled_wide: u128 = (terminal_width as u128) * (offset as u128) / (total_size as u128);
    let scaled: u16 = scaled_wide as u16;
    base_column + scaled
}

/// Number of blocks a progress event paints: the written byte count mapped
/// proportionally onto the terminal width, but always at least one block so
/// every completed write stays visible.
pub fn block_count(terminal_width: u16, bytes_written: usize, total_size: u64) -> (count: usize)
    requires
        total_size >= 1,
        bytes_written as int <= total_size as int,
    ensures
        count == (if (terminal_width as int * bytes_written as int) / (total_size as int) >= 1 {
            (terminal_width as int * bytes_written as int) / (total_size as int)
        } else {
            1int
        }),
        count <= (if terminal_width >= 1 {
            terminal_width as int
        } else {
            1int
        }),
{
    proof {
        lemma_mul_upper_bound(
            terminal_width as int,
            u16::MAX as int,
            bytes_written as int,
            usize::MAX as int,
        );
        lemma_mul_inequality(bytes_written as int, total_size as int, terminal_width as int);
        lemma_mul_is_commutative(bytes_written as int, terminal_width as int);
        lemma_mul_is_commutative(total_size as int, terminal_width as int);
        lemma_multiply_divide_le(
            terminal_width as int * bytes_written as int,
            total_size as int,
            terminal_width as int,
        );
    }
    let scaled_wide: u128 = (terminal_width as u128) * (bytes_written as u128) / (
    total_size as u128);
    let scaled: usize = scaled_wide as usize;
    if scaled >= 1 {
        scaled
    } else {
        1
    }
}

} // verus!
