use vstd::prelude::*;

use crate::board::{
    adjacent, count_pos, eligible, flood_result, holds_at, in_range, is_zero, playable,
    pressed_at, push_of, seed_mine, seed_safe, seeded_cell, touches, is_flood_path,
    flood_reaches, draw_at, draw_mine, draw_mines_around, draw_safe, draws_laid_out, draws_match,
    laid_out_from, pixel, seeded_from,
};
use crate::count::{
    lemma_count_complement, lemma_count_ext, lemma_count_flip, lemma_count_mono, lemma_count_none,
    lemma_index_of, lemma_index_unique, lemma_position_of,
};
use crate::define::{LINE, MINE, SEED_RANGE};
use crate::game::{ButtonInfos, ButtonPush, ClearCount};
use crate::rng::Draw;

verus! {

/// A board laid out from a seed grid, with its counter reset, is a game in
/// progress: well-formed, every number right, nothing pressed, and a
/// counter that agrees with it.
pub proof fn lemma_seeded_playable(num: [[u8; LINE]; LINE], b: ButtonInfos, c: ClearCount)
    requires
        forall|x: int, y: int|
            #![trigger b.cell(x, y)]
            in_range(x, y) ==> b.cell(x, y) == seeded_cell(num, x, y),
        c.count == 0,
        c.all == count_pos(LINE * LINE, seed_safe(num)),
    ensures
        playable(b, c),
        forall|x: int, y: int| #![trigger b.cell(x, y)] in_range(x, y) ==> b.cell(x, y).is_ext,
{
    assert forall|i: int, j: int| #[trigger] b.mine_at(i, j) == seed_mine(num, i, j) by {
        if in_range(i, j) {
            assert(b.cell(i, j) == seeded_cell(num, i, j));
        }
    }
    assert(b.numbers_valid()) by {
        assert forall|x: int, y: int|
            #![trigger b.cell(x, y)]
            in_range(x, y) && b.cell(x, y).number != MINE implies b.cell(x, y).number
            == b.neighbor_mines(x, y) by {
            assert(b.mine_at(x - 1, y - 1) == seed_mine(num, x - 1, y - 1));
            assert(b.mine_at(x - 1, y) == seed_mine(num, x - 1, y));
            assert(b.mine_at(x - 1, y + 1) == seed_mine(num, x - 1, y + 1));
            assert(b.mine_at(x, y - 1) == seed_mine(num, x, y - 1));
            assert(b.mine_at(x, y + 1) == seed_mine(num, x, y + 1));
            assert(b.mine_at(x + 1, y - 1) == seed_mine(num, x + 1, y - 1));
            assert(b.mine_at(x + 1, y) == seed_mine(num, x + 1, y));
            assert(b.mine_at(x + 1, y + 1) == seed_mine(num, x + 1, y + 1));
        }
    }
    assert forall|i: int| 0 <= i < LINE * LINE implies !#[trigger] holds_at(b.pressed(), i) by {
        lemma_position_of(i);
        assert(b.cell(i % (LINE as int), i / (LINE as int)).is_ext);
    }
    lemma_count_none(LINE * LINE, b.pressed());
    assert forall|i: int| 0 <= i < LINE * LINE implies #[trigger] holds_at(seed_safe(num), i)
        == holds_at(b.safe(), i) by {
        lemma_position_of(i);
        assert(b.cell(i % (LINE as int), i / (LINE as int)) == seeded_cell(
            num,
            i % (LINE as int),
            i / (LINE as int),
        ));
    }
    lemma_count_ext(LINE * LINE, seed_safe(num), b.safe());
}

} // verus!

verus! {

/// Around a button that counts no mine, no neighbour is a mine.
pub proof fn lemma_no_mine_near_zero(b: ButtonInfos, x: int, y: int, i: int, j: int)
    requires
        b.neighbor_mines(x, y) == 0,
        adjacent(x, y, i, j),
    ensures
        !b.is_mine(i, j),
{
    assert(b.mine_at(i, j) == 0) by {
        if i == x - 1 && j == y - 1 {
        } else if i == x - 1 && j == y {
        } else if i == x - 1 && j == y + 1 {
        } else if i == x && j == y - 1 {
        } else if i == x && j == y + 1 {
        } else if i == x + 1 && j == y - 1 {
        } else if i == x + 1 && j == y {
        } else {
            assert(i == x + 1 && j == y + 1);
        }
    }
}

/// With no mine pressed, the counter reaches `all` exactly when every
/// button without a mine is pressed.
pub proof fn lemma_cleared_iff_counts(b: ButtonInfos)
    requires
        b.no_mine_pressed(),
    ensures
        b.pressed_count() == b.safe_count() <==> b.all_cleared(),
{
    assert forall|i: int| 0 <= i < LINE * LINE && #[trigger] holds_at(b.pressed(), i) implies holds_at(
        b.safe(),
        i,
    ) by {
        lemma_position_of(i);
        assert(b.cell(i % (LINE as int), i / (LINE as int)).number != MINE);
    }
    lemma_count_mono(LINE * LINE, b.pressed(), b.safe());
    if b.pressed_count() == b.safe_count() {
        assert forall|x: int, y: int|
            #![trigger b.cell(x, y)]
            in_range(x, y) && b.cell(x, y).number != MINE implies !b.cell(x, y).is_ext by {
            lemma_index_of(x, y);
            assert(holds_at(b.safe(), y * LINE + x));
        }
    }
    if b.all_cleared() {
        assert forall|i: int| 0 <= i < LINE * LINE && #[trigger] holds_at(b.safe(), i) implies holds_at(
            b.pressed(),
            i,
        ) by {
            lemma_position_of(i);
            assert(b.cell(i % (LINE as int), i / (LINE as int)).number != MINE);
        }
        lemma_count_mono(LINE * LINE, b.safe(), b.pressed());
    }
}

/// The positions pressed by `update_button` on a safe button are on the
/// board and have no mine.
proof fn lemma_revealed_safe(b0: ButtonInfos, x: int, y: int, revealed: Seq<ButtonPush>, k: int)
    requires
        in_range(x, y),
        b0.cell(x, y).number != MINE,
        0 <= k <= 1,
        k <= revealed.len(),
        k == 1 ==> revealed[0] == push_of(x, y),
        b0.cell(x, y).number == 0 ==> flood_result(
            b0,
            seq![push_of(x, y)],
            x,
            y,
            revealed.skip(k),
        ),
        b0.cell(x, y).number != 0 ==> revealed.len() == k,
    ensures
        forall|i: int|
            0 <= i < revealed.len() ==> in_range(
                #[trigger] revealed[i].x as int,
                revealed[i].y as int,
            ) && b0.cell(revealed[i].x as int, revealed[i].y as int).number != MINE,
{
    let added = revealed.skip(k);
    assert forall|i: int| 0 <= i < revealed.len() implies in_range(
        #[trigger] revealed[i].x as int,
        revealed[i].y as int,
    ) && b0.cell(revealed[i].x as int, revealed[i].y as int).number != MINE by {
        if i < k {
            assert(revealed[i] == push_of(x, y));
        } else {
            assert(revealed[i] == added[i - k]);
            assert(eligible(b0, seq![push_of(x, y)], added[i - k]));
        }
    }
}

/// Pressing buttons keeps every button's position and number, so a
/// well-formed board with the right numbers stays so.
proof fn lemma_press_keeps_numbers(b0: ButtonInfos, b1: ButtonInfos, revealed: Seq<ButtonPush>)
    requires
        b0.wf(),
        b0.numbers_valid(),
        pressed_at(b0, b1, revealed),
    ensures
        b1.wf(),
        b1.numbers_valid(),
{
    assert forall|i: int, j: int| #[trigger] b1.mine_at(i, j) == b0.mine_at(i, j) by {
        if in_range(i, j) {
            assert(b1.cell(i, j).number == b0.cell(i, j).number);
        }
    }
    assert forall|i: int, j: int| #![trigger b1.cell(i, j)] in_range(i, j) implies {
        &&& b1.cell(i, j).x == i
        &&& b1.cell(i, j).y == j
        &&& b1.cell(i, j).number <= MINE
    } by {
        assert(b0.cell(i, j).x == i && b0.cell(i, j).y == j);
    }
    assert forall|i: int, j: int|
        #![trigger b1.cell(i, j)]
        in_range(i, j) && b1.cell(i, j).number != MINE implies b1.cell(i, j).number
        == b1.neighbor_mines(i, j) by {
        assert(b1.cell(i, j).number == b0.cell(i, j).number);
        assert(b0.cell(i, j).number == b0.neighbor_mines(i, j));
        assert(b1.mine_at(i - 1, j - 1) == b0.mine_at(i - 1, j - 1));
        assert(b1.mine_at(i - 1, j) == b0.mine_at(i - 1, j));
        assert(b1.mine_at(i - 1, j + 1) == b0.mine_at(i - 1, j + 1));
        assert(b1.mine_at(i, j - 1) == b0.mine_at(i, j - 1));
        assert(b1.mine_at(i, j + 1) == b0.mine_at(i, j + 1));
        assert(b1.mine_at(i + 1, j - 1) == b0.mine_at(i + 1, j - 1));
        assert(b1.mine_at(i + 1, j) == b0.mine_at(i + 1, j));
        assert(b1.mine_at(i + 1, j + 1) == b0.mine_at(i + 1, j + 1));
    }
}

/// Pressing only positions without a mine keeps every mine unpressed.
proof fn lemma_press_keeps_mines(b0: ButtonInfos, b1: ButtonInfos, revealed: Seq<ButtonPush>)
    requires
        b0.no_mine_pressed(),
        pressed_at(b0, b1, revealed),
        forall|i: int|
            0 <= i < revealed.len() ==> in_range(
                #[trigger] revealed[i].x as int,
                revealed[i].y as int,
            ) && b0.cell(revealed[i].x as int, revealed[i].y as int).number != MINE,
    ensures
        b1.no_mine_pressed(),
{
    assert forall|i: int, j: int|
        #![trigger b1.cell(i, j)]
        in_range(i, j) && b1.cell(i, j).number == MINE implies b1.cell(i, j).is_ext by {
        if revealed.contains(push_of(i, j)) {
            let t = choose|t: int| 0 <= t < revealed.len() && revealed[t] == push_of(i, j);
            assert(b0.cell(revealed[t].x as int, revealed[t].y as int).number != MINE);
        }
    }
}

/// One pair of `zeros_open` after a press: a pressed 0 at `(u, v)` has its
/// neighbour `(i, j)` pressed.
proof fn lemma_press_zero_neighbor(
    b0: ButtonInfos,
    b1: ButtonInfos,
    x: int,
    y: int,
    revealed: Seq<ButtonPush>,
    k: int,
    u: int,
    v: int,
    i: int,
    j: int,
)
    requires
        b0.cell(u, v).number != MINE ==> b0.cell(u, v).number == b0.neighbor_mines(u, v),
        !b0.cell(u, v).is_ext && b0.cell(u, v).number == 0 ==> !b0.cell(i, j).is_ext,
        in_range(x, y),
        b0.cell(x, y).number != MINE,
        k == if b0.cell(x, y).is_ext {
            1int
        } else {
            0int
        },
        k <= revealed.len(),
        k == 1 ==> revealed[0] == push_of(x, y),
        b0.cell(x, y).number == 0 ==> flood_result(
            b0,
            seq![push_of(x, y)],
            x,
            y,
            revealed.skip(k),
        ),
        b0.cell(x, y).number != 0 ==> revealed.len() == k,
        pressed_at(b0, b1, revealed),
        in_range(u, v),
        in_range(i, j),
        !b1.cell(u, v).is_ext,
        b1.cell(u, v).number == 0,
        adjacent(u, v, i, j),
    ensures
        !b1.cell(i, j).is_ext,
{
    let start = push_of(x, y);
    let added = revealed.skip(k);
    let q = push_of(i, j);
    let w = push_of(u, v);
    assert(b1.cell(u, v).number == b0.cell(u, v).number);
    if revealed.contains(q) {
    } else if !b0.cell(i, j).is_ext {
    } else if !b0.cell(u, v).is_ext {
    } else {
        // (u, v) was pressed just now: it is the start or in `added`.
        assert(revealed.contains(w));
        let t = choose|t: int| 0 <= t < revealed.len() && revealed[t] == w;
        lemma_no_mine_near_zero(b0, u, v, i, j);
        assert(b0.cell(x, y).number == 0) by {
            if t < k {
                assert(revealed[t] == start);
            } else if b0.cell(x, y).number != 0 {
                assert(revealed.len() == k);
            }
        }
        assert(q != start) by {
            if q == start && k == 1 {
                assert(revealed[0] == start);
            }
        }
        assert(!seq![start].contains(q)) by {
            if seq![start].contains(q) {
                assert(seq![start][0] == q);
            }
        }
        assert(eligible(b0, seq![start], q));
        if t < k {
            assert(revealed[t] == start);
            assert(touches(q, x, y));
            assert(added.contains(q));
        } else {
            assert(added[t - k] == w);
            assert(is_zero(b0, added[t - k]));
            assert(added.contains(q));
        }
        let s = choose|s: int| 0 <= s < added.len() && added[s] == q;
        assert(revealed[s + k] == q);
    }
}

/// Pressing the safe button at `(x, y)` and, when it shows 0, what the
/// flood fill from it opens keeps a game in progress: the board stays
/// well-formed with the same numbers, no mine gets pressed, every pressed 0
/// keeps all its neighbours pressed, and the counter keeps agreeing.
pub proof fn lemma_press_keeps_playable(
    b0: ButtonInfos,
    c0: ClearCount,
    b1: ButtonInfos,
    c1: ClearCount,
    x: int,
    y: int,
    revealed: Seq<ButtonPush>,
    k: int,
)
    requires
        playable(b0, c0),
        in_range(x, y),
        b0.cell(x, y).number != MINE,
        k == if b0.cell(x, y).is_ext {
            1int
        } else {
            0int
        },
        k <= revealed.len(),
        k == 1 ==> revealed[0] == push_of(x, y),
        b0.cell(x, y).number == 0 ==> flood_result(
            b0,
            seq![push_of(x, y)],
            x,
            y,
            revealed.skip(k),
        ),
        b0.cell(x, y).number != 0 ==> revealed.len() == k,
        pressed_at(b0, b1, revealed),
        b1.pressed_count() == b0.pressed_count() + revealed.len(),
        b1.safe_count() == b0.safe_count(),
        c1.count == c0.count + revealed.len(),
        c1.all == c0.all,
    ensures
        playable(b1, c1),
{
    lemma_revealed_safe(b0, x, y, revealed, k);
    lemma_press_keeps_numbers(b0, b1, revealed);
    lemma_press_keeps_mines(b0, b1, revealed);
    assert forall|u: int, v: int, i: int, j: int|
        #![trigger b1.cell(u, v), b1.cell(i, j)]
        in_range(u, v) && in_range(i, j) && !b1.cell(u, v).is_ext && b1.cell(u, v).number == 0
            && adjacent(u, v, i, j) implies !b1.cell(i, j).is_ext by {
        assert(b0.cell(u, v) == b0.cell(u, v) && b0.cell(i, j) == b0.cell(i, j));
        lemma_press_zero_neighbor(b0, b1, x, y, revealed, k, u, v, i, j);
    }
}

} // verus!

verus! {

/// On a board where every pressed 0 has its neighbours pressed, pressing an
/// already pressed button presses nothing.
pub proof fn lemma_repress_presses_nothing(
    b0: ButtonInfos,
    x: int,
    y: int,
    revealed: Seq<ButtonPush>,
)
    requires
        b0.zeros_open(),
        in_range(x, y),
        !b0.cell(x, y).is_ext,
        b0.cell(x, y).number == 0 ==> flood_result(
            b0,
            seq![push_of(x, y)],
            x,
            y,
            revealed.skip(0),
        ),
        b0.cell(x, y).number != 0 ==> revealed.len() == 0,
    ensures
        revealed.len() == 0,
{
    if b0.cell(x, y).number == 0 && revealed.len() > 0 {
        let added = revealed.skip(0);
        let p = added[0];
        assert(eligible(b0, seq![push_of(x, y)], p));
        assert(touches(p, x, y));
        assert(b0.cell(x, y) == b0.cell(x, y) && b0.cell(p.x as int, p.y as int) == b0.cell(
            p.x as int,
            p.y as int,
        ));
    }
}

} // verus!

verus! {

/// Each position the flood fill adds ends a walk of the flood fill.
proof fn lemma_added_has_path(
    b: ButtonInfos,
    blocked: Seq<ButtonPush>,
    sx: int,
    sy: int,
    added: Seq<ButtonPush>,
    i: int,
) -> (path: Seq<ButtonPush>)
    requires
        flood_result(b, blocked, sx, sy, added),
        0 <= i < added.len(),
    ensures
        is_flood_path(b, blocked, sx, sy, path),
        path.last() == added[i],
    decreases i,
{
    if touches(added[i], sx, sy) {
        let path = seq![added[i]];
        assert(path[0] == added[i]);
        path
    } else {
        let j = choose|j: int|
            0 <= j < i && is_zero(b, #[trigger] added[j]) && touches(
                added[i],
                added[j].x as int,
                added[j].y as int,
            );
        let pj = lemma_added_has_path(b, blocked, sx, sy, added, j);
        let path = pj.push(added[i]);
        assert forall|t: int| 0 <= t < path.len() implies eligible(b, blocked, #[trigger] path[t]) by {
            if t < pj.len() {
                assert(path[t] == pj[t]);
            }
        }
        assert forall|t: int| 0 <= t < path.len() - 1 implies is_zero(b, #[trigger] path[t])
            && touches(path[t + 1], path[t].x as int, path[t].y as int) by {
            assert(path[t] == pj[t]);
            if t < pj.len() - 1 {
                assert(path[t + 1] == pj[t + 1]);
            }
        }
        assert(path[0] == pj[0]);
        path
    }
}

/// Every walk of the flood fill stays inside what the flood fill adds.
proof fn lemma_path_in_added(
    b: ButtonInfos,
    blocked: Seq<ButtonPush>,
    sx: int,
    sy: int,
    added: Seq<ButtonPush>,
    path: Seq<ButtonPush>,
    t: int,
)
    requires
        flood_result(b, blocked, sx, sy, added),
        is_flood_path(b, blocked, sx, sy, path),
        0 <= t < path.len(),
    ensures
        added.contains(path[t]),
    decreases t,
{
    assert(eligible(b, blocked, path[t]));
    if t > 0 {
        lemma_path_in_added(b, blocked, sx, sy, added, path, t - 1);
        let j = choose|j: int| 0 <= j < added.len() && added[j] == path[t - 1];
        assert(is_zero(b, path[t - 1]));
        assert(is_zero(b, added[j]));
        assert(touches(path[t], added[j].x as int, added[j].y as int));
    }
}

/// The flood fill adds exactly the positions that some walk of the flood
/// fill reaches: the eligible buttons connected to the start through
/// eligible buttons that show 0.
pub proof fn lemma_flood_is_reachable(
    b: ButtonInfos,
    blocked: Seq<ButtonPush>,
    sx: int,
    sy: int,
    added: Seq<ButtonPush>,
)
    requires
        flood_result(b, blocked, sx, sy, added),
    ensures
        forall|q: ButtonPush| #[trigger] added.contains(q) <==> flood_reaches(b, blocked, sx, sy, q),
{
    assert forall|q: ButtonPush| #[trigger] added.contains(q) <==> flood_reaches(
        b,
        blocked,
        sx,
        sy,
        q,
    ) by {
        if added.contains(q) {
            let i = choose|i: int| 0 <= i < added.len() && added[i] == q;
            let path = lemma_added_has_path(b, blocked, sx, sy, added, i);
            assert(is_flood_path(b, blocked, sx, sy, path) && path.last() == q);
        }
        if flood_reaches(b, blocked, sx, sy, q) {
            let path = choose|path: Seq<ButtonPush>|
                #[trigger] is_flood_path(b, blocked, sx, sy, path) && path.last() == q;
            lemma_path_in_added(b, blocked, sx, sy, added, path, path.len() - 1);
        }
    }
}

} // verus!

verus! {

/// In a game in progress the counter plus the unpressed buttons make the
/// whole board, so `update_button`'s bound on the counter always holds.
pub proof fn lemma_playable_fits(b: ButtonInfos, c: ClearCount)
    requires
        playable(b, c),
    ensures
        c.count + b.unpressed_count() == LINE * LINE,
{
    assert forall|i: int| 0 <= i < LINE * LINE implies #[trigger] holds_at(b.pressed(), i)
        == !holds_at(b.unpressed(), i) by {}
    lemma_count_complement(LINE * LINE, b.pressed(), b.unpressed());
}

} // verus!

verus! {

/// Laying out a board from a seed grid leaves nothing of what was there
/// before: two layouts of the same grid give the same board and counter.
pub proof fn lemma_layout_deterministic(
    num: [[u8; LINE]; LINE],
    b1: ButtonInfos,
    c1: ClearCount,
    b2: ButtonInfos,
    c2: ClearCount,
)
    requires
        forall|x: int, y: int|
            #![trigger b1.cell(x, y)]
            in_range(x, y) ==> b1.cell(x, y) == seeded_cell(num, x, y),
        forall|x: int, y: int|
            #![trigger b2.cell(x, y)]
            in_range(x, y) ==> b2.cell(x, y) == seeded_cell(num, x, y),
        c1.count == 0,
        c2.count == 0,
        c1.all == count_pos(LINE * LINE, seed_safe(num)),
        c2.all == count_pos(LINE * LINE, seed_safe(num)),
    ensures
        b1 == b2,
        c1 == c2,
{
    assert forall|i: int| 0 <= i < LINE implies b1.info@[i] == b2.info@[i] by {
        assert forall|j: int| 0 <= j < LINE implies b1.info@[i]@[j] == b2.info@[i]@[j] by {
            assert(b1.cell(i, j) == b2.cell(i, j));
        }
        assert(b1.info@[i]@ =~= b2.info@[i]@);
        assert(b1.info@[i] =~= b2.info@[i]);
    }
    assert(b1.info@ =~= b2.info@);
    assert(b1.info =~= b2.info);
}

/// Turning one safe position of the seed grid into a mine makes that
/// button a mine, raises the number of each safe neighbour by one, leaves
/// every other button as it was, and lowers `all` by one.
pub proof fn lemma_add_mine(g: [[u8; LINE]; LINE], h: [[u8; LINE]; LINE], a: int, b: int)
    requires
        in_range(a, b),
        g@[a]@[b] != MINE,
        h@[a]@[b] == MINE,
        forall|i: int, j: int|
            #![trigger h@[i]@[j]]
            in_range(i, j) && !(i == a && j == b) ==> h@[i]@[j] == g@[i]@[j],
    ensures
        count_pos(LINE * LINE, seed_safe(h)) == count_pos(LINE * LINE, seed_safe(g)) - 1,
        seeded_cell(h, a, b).number == MINE,
        forall|i: int, j: int|
            #![trigger seeded_cell(h, i, j)]
            in_range(i, j) && !(i == a && j == b) && g@[i]@[j] != MINE ==> seeded_cell(
                h,
                i,
                j,
            ).number == seeded_cell(g, i, j).number + if adjacent(i, j, a, b) {
                1int
            } else {
                0int
            },
        forall|i: int, j: int|
            #![trigger seeded_cell(h, i, j)]
            in_range(i, j) && !(i == a && j == b) && g@[i]@[j] == MINE ==> seeded_cell(h, i, j)
                == seeded_cell(g, i, j),
        forall|i: int, j: int|
            #![trigger seeded_cell(h, i, j)]
            in_range(i, j) ==> {
                let ch = seeded_cell(h, i, j);
                let cg = seeded_cell(g, i, j);
                ch.x == cg.x && ch.y == cg.y && ch.tx == cg.tx && ch.ty == cg.ty && ch.is_ext
                    == cg.is_ext
            },
{
    assert forall|i: int, j: int| #[trigger] seed_mine(h, i, j) == seed_mine(g, i, j) + if i == a
        && j == b {
        1int
    } else {
        0int
    } by {
        if in_range(i, j) && !(i == a && j == b) {
            assert(h@[i]@[j] == g@[i]@[j]);
        }
    }
    assert forall|i: int, j: int|
        #![trigger seeded_cell(h, i, j)]
        in_range(i, j) && !(i == a && j == b) && g@[i]@[j] != MINE implies seeded_cell(
            h,
            i,
            j,
        ).number == seeded_cell(g, i, j).number + if adjacent(i, j, a, b) {
            1int
        } else {
            0int
        } by {
        assert(h@[i]@[j] == g@[i]@[j]);
        assert(seed_mine(h, i - 1, j - 1) == seed_mine(g, i - 1, j - 1) + if i - 1 == a && j - 1
            == b {
            1int
        } else {
            0int
        });
        assert(seed_mine(h, i - 1, j) == seed_mine(g, i - 1, j) + if i - 1 == a && j == b {
            1int
        } else {
            0int
        });
        assert(seed_mine(h, i - 1, j + 1) == seed_mine(g, i - 1, j + 1) + if i - 1 == a && j + 1
            == b {
            1int
        } else {
            0int
        });
        assert(seed_mine(h, i, j - 1) == seed_mine(g, i, j - 1) + if i == a && j - 1 == b {
            1int
        } else {
            0int
        });
        assert(seed_mine(h, i, j + 1) == seed_mine(g, i, j + 1) + if i == a && j + 1 == b {
            1int
        } else {
            0int
        });
        assert(seed_mine(h, i + 1, j - 1) == seed_mine(g, i + 1, j - 1) + if i + 1 == a && j - 1
            == b {
            1int
        } else {
            0int
        });
        assert(seed_mine(h, i + 1, j) == seed_mine(g, i + 1, j) + if i + 1 == a && j == b {
            1int
        } else {
            0int
        });
        assert(seed_mine(h, i + 1, j + 1) == seed_mine(g, i + 1, j + 1) + if i + 1 == a && j + 1
            == b {
            1int
        } else {
            0int
        });
    }
    assert forall|i: int, j: int|
        #![trigger seeded_cell(h, i, j)]
        in_range(i, j) && !(i == a && j == b) && g@[i]@[j] == MINE implies seeded_cell(h, i, j)
        == seeded_cell(g, i, j) by {
        assert(h@[i]@[j] == g@[i]@[j]);
    }
    let k = b * LINE + a;
    lemma_index_of(a, b);
    assert forall|i: int| 0 <= i < LINE * LINE && i != k implies #[trigger] holds_at(
        seed_safe(h),
        i,
    ) == holds_at(seed_safe(g), i) by {
        lemma_position_of(i);
        if i % (LINE as int) == a && i / (LINE as int) == b {
            lemma_index_unique(i, k);
        }
        assert(h@[i % (LINE as int)]@[i / (LINE as int)] == g@[i % (LINE as int)]@[i / (
        LINE as int)]);
    }
    lemma_count_flip(LINE * LINE, seed_safe(h), seed_safe(g), k);
}

} // verus!

verus! {

/// A board laid out from a sequence of draws, with its counter reset,
/// follows the draws button by button: a mine exactly where the draw for
/// that position is `MINE`, elsewhere the number of `MINE` draws around it,
/// and `all` counts the draws that are not `MINE`.
pub proof fn lemma_layout_follows_draws(draws: Seq<Draw>, b: ButtonInfos, c: ClearCount)
    requires
        laid_out_from(draws, b),
        playable(b, c),
        c.count == 0,
    ensures
        draws_laid_out(draws, b, c),
{
    let num = choose|num: [[u8; LINE]; LINE]| #[trigger] seeded_from(num, b) && draws_match(num, draws);
    assert forall|i: int, j: int| #[trigger] draw_mine(draws, i, j) == seed_mine(num, i, j) by {
        if in_range(i, j) {
            assert(num@[i]@[j] == draw_at(draws, i, j));
        }
    }
    assert forall|x: int, y: int| #![trigger b.cell(x, y)] in_range(x, y) implies {
        &&& b.cell(x, y).x == x
        &&& b.cell(x, y).y == y
        &&& b.cell(x, y).tx == pixel(x)
        &&& b.cell(x, y).ty == pixel(y)
        &&& b.cell(x, y).is_ext
        &&& (b.cell(x, y).number == MINE <==> draw_at(draws, x, y) == MINE)
        &&& draw_at(draws, x, y) != MINE ==> b.cell(x, y).number == draw_mines_around(draws, x, y)
    } by {
        assert(num@[x]@[y] == draw_at(draws, x, y));
        assert(b.cell(x, y) == seeded_cell(num, x, y));
        assert(0 <= pixel(x) < 1000 && 0 <= pixel(y) < 1000);
        assert(draw_mine(draws, x - 1, y - 1) == seed_mine(num, x - 1, y - 1));
        assert(draw_mine(draws, x - 1, y) == seed_mine(num, x - 1, y));
        assert(draw_mine(draws, x - 1, y + 1) == seed_mine(num, x - 1, y + 1));
        assert(draw_mine(draws, x, y - 1) == seed_mine(num, x, y - 1));
        assert(draw_mine(draws, x, y + 1) == seed_mine(num, x, y + 1));
        assert(draw_mine(draws, x + 1, y - 1) == seed_mine(num, x + 1, y - 1));
        assert(draw_mine(draws, x + 1, y) == seed_mine(num, x + 1, y));
        assert(draw_mine(draws, x + 1, y + 1) == seed_mine(num, x + 1, y + 1));
    }
    assert forall|i: int| 0 <= i < LINE * LINE implies #[trigger] holds_at(b.safe(), i)
        == holds_at(draw_safe(draws), i) by {
        lemma_position_of(i);
        let x = i % (LINE as int);
        let y = i / (LINE as int);
        assert(num@[x]@[y] == draw_at(draws, x, y));
        assert(b.cell(x, y) == seeded_cell(num, x, y));
    }
    lemma_count_ext(LINE * LINE, b.safe(), draw_safe(draws));
    assert(draws.len() == LINE * LINE);
    assert forall|x: int, y: int| in_range(x, y) implies #[trigger] draw_at(draws, x, y)
        < SEED_RANGE by {
        assert(seeded_from(num, b));
        assert(b.cell(x, y) == seeded_cell(num, x, y));
        assert(num@[x]@[y] == draw_at(draws, x, y));
        assert(num@[x]@[y] < SEED_RANGE);
    }
    assert(c.all == count_pos(LINE * LINE, draw_safe(draws)));
}

} // verus!
