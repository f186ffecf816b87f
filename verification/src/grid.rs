//! The square grid over two axes of `num` values each, walked row by row.

use vstd::prelude::*;
use vstd::arithmetic::div_mod::{
    lemma_fundamental_div_mod_converse, lemma_mod_pos_bound, lemma_multiply_divide_lt,
};

verus! {

/// Point `i` of the grid takes value `i / num` of the first axis and value
/// `i % num` of the second: both are values of their axes.
pub proof fn lemma_cell_on_axes(i: int, num: int)
    requires
        0 <= num,
        0 <= i < num * num,
    ensures
        0 <= i / num < num,
        0 <= i % num < num,
{
    assert(0 < num) by (nonlinear_arith)
        requires
            0 <= num,
            0 <= i < num * num,
    ;
    lemma_multiply_divide_lt(i, num, num);
    lemma_mod_pos_bound(i, num);
    assert(0 <= i / num) by (nonlinear_arith)
        requires
            0 <= i,
            0 < num,
    ;
}

/// Each pair of a value of the first axis and a value of the second is a
/// point of the grid, the point `x * num + y`.
pub proof fn lemma_cell_of_pair(x: int, y: int, num: int)
    requires
        0 <= x < num,
        0 <= y < num,
    ensures
        0 <= x * num + y < num * num,
        (x * num + y) / num == x,
        (x * num + y) % num == y,
{
    lemma_fundamental_div_mod_converse(x * num + y, num, x, y);
    assert(0 <= x * num + y < num * num) by (nonlinear_arith)
        requires
            0 <= x < num,
            0 <= y < num,
    ;
}

/// The points of the grid over two axes of `num` values each, row by row:
/// for each point the index of its value on the first axis and on the
/// second. `None` where 16 bits cannot hold the number of points.
pub fn grid_cells(num: u16) -> (r: Option<Vec<(usize, usize)>>)
    ensures
        match r {
            Some(cells) => {
                &&& num * num <= u16::MAX
                &&& cells@.len() == num * num
                &&& forall|i: int|
                    0 <= i < cells@.len() ==> (#[trigger] cells@[i]).0 == i / (num as int)
                        && cells@[i].1 == i % (num as int)
            },
            None => num * num > u16::MAX,
        },
{
    let amount: u16 = match num.checked_mul(num) {
        Some(amount) => amount,
        None => {
            return None;
        },
    };
    let mut cells: Vec<(usize, usize)> = Vec::with_capacity(amount as usize);
    let mut i: usize = 0;
    while i < amount as usize
        invariant
            amount == num * num,
            i <= amount,
            cells@.len() == i,
            forall|j: int|
                0 <= j < i ==> (#[trigger] cells@[j]).0 == j / (num as int) && cells@[j].1 == j % (
                num as int),
        decreases amount - i,
    {
        proof {
            lemma_cell_on_axes(i as int, num as int);
        }
        let x = i / (num as usize);
        let y = i % (num as usize);
        cells.push((x, y));
        i += 1;
    }
    Some(cells)
}

} // verus!
