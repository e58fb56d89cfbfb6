use vstd::prelude::*;

use crate::board::{count_pos, holds_at, in_range, pressed_at, pressed_cell, push_of};
use crate::game::ButtonInfos;
use crate::define::LINE;

verus! {

/// The position `(x, y)` has index `y * LINE + x`.
pub proof fn lemma_index_of(x: int, y: int)
    requires
        in_range(x, y),
    ensures
        0 <= y * LINE + x < LINE * LINE,
        (y * LINE + x) % (LINE as int) == x,
        (y * LINE + x) / (LINE as int) == y,
{
    vstd::arithmetic::div_mod::lemma_fundamental_div_mod_converse(y * LINE + x, LINE as int, y, x);
}

/// Every index below `LINE * LINE` names a position on the board, and
/// different indices name different positions.
pub proof fn lemma_position_of(i: int)
    requires
        0 <= i < LINE * LINE,
    ensures
        in_range(i % (LINE as int), i / (LINE as int)),
        i == (i / (LINE as int)) * LINE + i % (LINE as int),
{
    vstd::arithmetic::div_mod::lemma_fundamental_div_mod(i, LINE as int);
}

/// Positions given by their index are equal only for equal indices.
pub proof fn lemma_index_unique(i: int, k: int)
    requires
        0 <= i < LINE * LINE,
        0 <= k < LINE * LINE,
        i % (LINE as int) == k % (LINE as int),
        i / (LINE as int) == k / (LINE as int),
    ensures
        i == k,
{
    lemma_position_of(i);
    lemma_position_of(k);
}

pub proof fn lemma_count_bounds(n: int, p: spec_fn(int, int) -> bool)
    requires
        n >= 0,
    ensures
        0 <= count_pos(n, p) <= n,
    decreases n,
{
    if n > 0 {
        lemma_count_bounds(n - 1, p);
    }
}

/// Counting is monotone in the predicate, and equal counts of nested
/// predicates mean the predicates agree on every index counted.
pub proof fn lemma_count_mono(n: int, p1: spec_fn(int, int) -> bool, p2: spec_fn(int, int) -> bool)
    requires
        forall|i: int| 0 <= i < n && #[trigger] holds_at(p1, i) ==> holds_at(p2, i),
    ensures
        count_pos(n, p1) <= count_pos(n, p2),
        count_pos(n, p1) == count_pos(n, p2) ==> forall|i: int|
            0 <= i < n && #[trigger] holds_at(p2, i) ==> holds_at(p1, i),
    decreases n,
{
    if n > 0 {
        lemma_count_mono(n - 1, p1, p2);
    }
}

/// A nested predicate that misses one index counted by the larger one has
/// a smaller count.
pub proof fn lemma_count_strict(
    n: int,
    p1: spec_fn(int, int) -> bool,
    p2: spec_fn(int, int) -> bool,
    k: int,
)
    requires
        forall|i: int| 0 <= i < n && #[trigger] holds_at(p1, i) ==> holds_at(p2, i),
        0 <= k < n,
        holds_at(p2, k),
        !holds_at(p1, k),
    ensures
        count_pos(n, p1) < count_pos(n, p2),
{
    lemma_count_mono(n, p1, p2);
}

/// Predicates that agree on every index counted have the same count.
pub proof fn lemma_count_ext(n: int, p1: spec_fn(int, int) -> bool, p2: spec_fn(int, int) -> bool)
    requires
        forall|i: int| 0 <= i < n ==> #[trigger] holds_at(p1, i) == holds_at(p2, i),
    ensures
        count_pos(n, p1) == count_pos(n, p2),
    decreases n,
{
    if n > 0 {
        lemma_count_ext(n - 1, p1, p2);
    }
}

/// Switching one index from false to true adds one to the count.
pub proof fn lemma_count_flip(
    n: int,
    p1: spec_fn(int, int) -> bool,
    p2: spec_fn(int, int) -> bool,
    k: int,
)
    requires
        forall|i: int| 0 <= i < n && i != k ==> #[trigger] holds_at(p1, i) == holds_at(p2, i),
        0 <= k < n,
        !holds_at(p1, k),
        holds_at(p2, k),
    ensures
        count_pos(n, p2) == count_pos(n, p1) + 1,
    decreases n,
{
    if n - 1 == k {
        lemma_count_ext(n - 1, p1, p2);
    } else {
        lemma_count_flip(n - 1, p1, p2, k);
    }
}

/// A predicate and its negation together count every index.
pub proof fn lemma_count_complement(
    n: int,
    p1: spec_fn(int, int) -> bool,
    p2: spec_fn(int, int) -> bool,
)
    requires
        n >= 0,
        forall|i: int| 0 <= i < n ==> #[trigger] holds_at(p1, i) == !holds_at(p2, i),
    ensures
        count_pos(n, p1) + count_pos(n, p2) == n,
    decreases n,
{
    if n > 0 {
        lemma_count_complement(n - 1, p1, p2);
    }
}

/// A predicate that holds at one index has a positive count.
pub proof fn lemma_count_positive(n: int, p: spec_fn(int, int) -> bool, k: int)
    requires
        0 <= k < n,
        holds_at(p, k),
    ensures
        count_pos(n, p) >= 1,
    decreases n,
{
    lemma_count_bounds(n - 1, p);
    if n - 1 != k {
        lemma_count_positive(n - 1, p, k);
    }
}

} // verus!

verus! {

/// Pressing the unpressed button at `(x, y)` and nothing else moves one
/// button from the unpressed count to the pressed count.
pub proof fn lemma_pressed_one(before: ButtonInfos, after: ButtonInfos, x: int, y: int)
    requires
        in_range(x, y),
        before.cell(x, y).is_ext,
        forall|i: int, j: int|
            #![trigger after.cell(i, j)]
            in_range(i, j) ==> after.cell(i, j) == if i == x && j == y {
                pressed_cell(before.cell(i, j))
            } else {
                before.cell(i, j)
            },
    ensures
        pressed_at(before, after, seq![push_of(x, y)]),
        after.unpressed_count() == before.unpressed_count() - 1,
        after.pressed_count() == before.pressed_count() + 1,
        after.safe_count() == before.safe_count(),
{
    let k = y * LINE + x;
    lemma_index_of(x, y);
    assert forall|i: int, j: int| #[trigger] in_range(i, j) implies after.cell(i, j) == if seq![
        push_of(x, y),
    ].contains(push_of(i, j)) {
        pressed_cell(before.cell(i, j))
    } else {
        before.cell(i, j)
    } by {
        if seq![push_of(x, y)].contains(push_of(i, j)) {
            assert(seq![push_of(x, y)][0] == push_of(i, j));
        } else {
            assert(seq![push_of(x, y)][0] == push_of(x, y));
        }
    }
    assert forall|i: int| 0 <= i < LINE * LINE && i != k implies #[trigger] holds_at(
        after.unpressed(),
        i,
    ) == holds_at(before.unpressed(), i) && holds_at(after.pressed(), i) == holds_at(
        before.pressed(),
        i,
    ) by {
        lemma_position_of(i);
        if i % (LINE as int) == x && i / (LINE as int) == y {
            lemma_index_unique(i, k);
        }
        assert(after.cell(i % (LINE as int), i / (LINE as int)) == before.cell(
            i % (LINE as int),
            i / (LINE as int),
        ));
    }
    lemma_count_flip(LINE * LINE, after.unpressed(), before.unpressed(), k);
    lemma_count_flip(LINE * LINE, before.pressed(), after.pressed(), k);
    assert forall|i: int| 0 <= i < LINE * LINE implies #[trigger] holds_at(after.safe(), i)
        == holds_at(before.safe(), i) by {
        lemma_position_of(i);
        assert(after.cell(i % (LINE as int), i / (LINE as int)).number == before.cell(
            i % (LINE as int),
            i / (LINE as int),
        ).number);
    }
    lemma_count_ext(LINE * LINE, after.safe(), before.safe());
}

/// Leaving the board unchanged is pressing an already pressed button, or
/// a position off the board.
pub proof fn lemma_pressed_none(before: ButtonInfos, after: ButtonInfos, x: int, y: int)
    requires
        0 <= x <= usize::MAX,
        0 <= y <= usize::MAX,
        in_range(x, y) ==> !before.cell(x, y).is_ext,
        after == before,
    ensures
        pressed_at(before, after, seq![push_of(x, y)]),
{
    assert forall|i: int, j: int| #[trigger] in_range(i, j) implies after.cell(i, j) == if seq![
        push_of(x, y),
    ].contains(push_of(i, j)) {
        pressed_cell(before.cell(i, j))
    } else {
        before.cell(i, j)
    } by {
        if seq![push_of(x, y)].contains(push_of(i, j)) {
            assert(seq![push_of(x, y)][0] == push_of(i, j));
            assert(i == x && j == y);
        }
    }
}

} // verus!

verus! {

/// A predicate that holds nowhere counts 0.
pub proof fn lemma_count_none(n: int, p: spec_fn(int, int) -> bool)
    requires
        forall|i: int| 0 <= i < n ==> !#[trigger] holds_at(p, i),
    ensures
        count_pos(n, p) == 0,
    decreases n,
{
    if n > 0 {
        lemma_count_none(n - 1, p);
    }
}

} // verus!
