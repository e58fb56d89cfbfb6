use vstd::prelude::*;

use crate::define::{LINE, MINE, SEED_RANGE, SIZE};
use crate::game::{ButtonInfo, ButtonInfos, ButtonPush, ClearCount};
use crate::rng::Draw;

verus! {

/// `(x, y)` lies on the board.
pub open spec fn in_range(x: int, y: int) -> bool {
    0 <= x < LINE && 0 <= y < LINE
}

/// `(ax, ay)` and `(bx, by)` are distinct and touch, sideways or diagonally.
pub open spec fn adjacent(ax: int, ay: int, bx: int, by: int) -> bool {
    &&& !(ax == bx && ay == by)
    &&& -1 <= ax - bx <= 1
    &&& -1 <= ay - by <= 1
}

/// The position `p` touches `(x, y)`.
pub open spec fn touches(p: ButtonPush, x: int, y: int) -> bool {
    adjacent(p.x as int, p.y as int, x, y)
}

impl ButtonInfos {
    /// The button at `(x, y)`.
    pub open spec fn cell(&self, x: int, y: int) -> ButtonInfo {
        self.info@[x]@[y]
    }

    /// There is a mine at `(x, y)` (never outside the board).
    pub open spec fn is_mine(&self, x: int, y: int) -> bool {
        in_range(x, y) && self.cell(x, y).number == MINE
    }

    /// Each button knows its own position, and no number exceeds `MINE`.
    pub open spec fn wf(&self) -> bool {
        forall|x: int, y: int|
            #![trigger self.cell(x, y)]
            in_range(x, y) ==> {
                &&& self.cell(x, y).x == x
                &&& self.cell(x, y).y == y
                &&& self.cell(x, y).number <= MINE
            }
    }

    /// 1 for a mine at `(x, y)`, else 0.
    pub open spec fn mine_at(&self, x: int, y: int) -> int {
        if self.is_mine(x, y) {
            1
        } else {
            0
        }
    }

    /// Number of mines among the (up to eight) buttons around `(x, y)`.
    pub open spec fn neighbor_mines(&self, x: int, y: int) -> int {
        self.mine_at(x - 1, y - 1) + self.mine_at(x - 1, y) + self.mine_at(x - 1, y + 1)
            + self.mine_at(x, y - 1) + self.mine_at(x, y + 1) + self.mine_at(x + 1, y - 1)
            + self.mine_at(x + 1, y) + self.mine_at(x + 1, y + 1)
    }

    /// Every button without a mine shows the number of mines around it.
    pub open spec fn numbers_valid(&self) -> bool {
        forall|x: int, y: int|
            #![trigger self.cell(x, y)]
            in_range(x, y) && self.cell(x, y).number != MINE ==> self.cell(x, y).number
                == self.neighbor_mines(x, y)
    }

    /// No mine has been pressed.
    pub open spec fn no_mine_pressed(&self) -> bool {
        forall|x: int, y: int|
            #![trigger self.cell(x, y)]
            in_range(x, y) && self.cell(x, y).number == MINE ==> self.cell(x, y).is_ext
    }

    /// Every pressed button that shows 0 has all its neighbours pressed.
    pub open spec fn zeros_open(&self) -> bool {
        forall|x: int, y: int, i: int, j: int|
            #![trigger self.cell(x, y), self.cell(i, j)]
            in_range(x, y) && in_range(i, j) && !self.cell(x, y).is_ext && self.cell(x, y).number
                == 0 && adjacent(x, y, i, j) ==> !self.cell(i, j).is_ext
    }

    /// Positions of the buttons that are still unpressed.
    pub open spec fn unpressed(&self) -> spec_fn(int, int) -> bool {
        |x: int, y: int| self.cell(x, y).is_ext
    }

    /// Positions of the pressed buttons.
    pub open spec fn pressed(&self) -> spec_fn(int, int) -> bool {
        |x: int, y: int| !self.cell(x, y).is_ext
    }

    /// Positions without a mine.
    pub open spec fn safe(&self) -> spec_fn(int, int) -> bool {
        |x: int, y: int| self.cell(x, y).number != MINE
    }

    /// Number of unpressed buttons.
    pub open spec fn unpressed_count(&self) -> int {
        count_pos(LINE * LINE, self.unpressed())
    }

    /// Number of pressed buttons.
    pub open spec fn pressed_count(&self) -> int {
        count_pos(LINE * LINE, self.pressed())
    }

    /// Number of buttons without a mine.
    pub open spec fn safe_count(&self) -> int {
        count_pos(LINE * LINE, self.safe())
    }

    /// Every button without a mine has been pressed.
    pub open spec fn all_cleared(&self) -> bool {
        forall|x: int, y: int|
            #![trigger self.cell(x, y)]
            in_range(x, y) && self.cell(x, y).number != MINE ==> !self.cell(x, y).is_ext
    }
}

/// The board position with index `i`, row by row: `(i % LINE, i / LINE)`,
/// satisfies `p`.
pub open spec fn holds_at(p: spec_fn(int, int) -> bool, i: int) -> bool {
    p(i % (LINE as int), i / (LINE as int))
}

/// Number of board indices below `n` whose position satisfies `p`.
pub open spec fn count_pos(n: int, p: spec_fn(int, int) -> bool) -> int
    decreases n,
{
    if n <= 0 {
        0
    } else {
        count_pos(n - 1, p) + if holds_at(p, n - 1) {
            1int
        } else {
            0int
        }
    }
}

/// The button `c` once pressed.
pub open spec fn pressed_cell(c: ButtonInfo) -> ButtonInfo {
    ButtonInfo { number: c.number, x: c.x, y: c.y, tx: c.tx, ty: c.ty, is_ext: false }
}

/// The position `(x, y)` as a `ButtonPush`.
pub open spec fn push_of(x: int, y: int) -> ButtonPush {
    ButtonPush { x: x as usize, y: y as usize }
}

/// `after` is `before` with the buttons at the positions `ps` pressed and
/// nothing else changed.
pub open spec fn pressed_at(before: ButtonInfos, after: ButtonInfos, ps: Seq<ButtonPush>) -> bool {
    forall|i: int, j: int|
        #![trigger after.cell(i, j)]
        in_range(i, j) ==> after.cell(i, j) == if ps.contains(push_of(i, j)) {
            pressed_cell(before.cell(i, j))
        } else {
            before.cell(i, j)
        }
}

/// The counter agrees with the board: `count` buttons pressed, `all`
/// buttons without a mine.
pub open spec fn counts_agree(b: ButtonInfos, c: ClearCount) -> bool {
    &&& c.count == b.pressed_count()
    &&& c.all == b.safe_count()
}

/// The state of a game in progress: a well-formed board whose numbers are
/// right, with no mine pressed, every pressed 0 surrounded by pressed
/// buttons, and a counter that agrees with it.
pub open spec fn playable(b: ButtonInfos, c: ClearCount) -> bool {
    &&& b.wf()
    &&& b.numbers_valid()
    &&& b.no_mine_pressed()
    &&& b.zeros_open()
    &&& counts_agree(b, c)
}

/// `p` may be opened by the flood fill: it is on the board, has no mine,
/// is unpressed, and is not among `blocked`.
pub open spec fn eligible(b: ButtonInfos, blocked: Seq<ButtonPush>, p: ButtonPush) -> bool {
    &&& in_range(p.x as int, p.y as int)
    &&& b.cell(p.x as int, p.y as int).number != MINE
    &&& b.cell(p.x as int, p.y as int).is_ext
    &&& !blocked.contains(p)
}

/// `p` is on the board and shows 0 on `b`.
pub open spec fn is_zero(b: ButtonInfos, p: ButtonPush) -> bool {
    in_range(p.x as int, p.y as int) && b.cell(p.x as int, p.y as int).number == 0
}

/// The part of `flood_result` that holds at every step of the flood fill:
/// each position in `added` is eligible and none occurs twice; each one
/// touches `(sx, sy)` or an earlier position of `added` that shows 0; and
/// every eligible position that touches a position of `added` showing 0 is
/// in `added`.
pub open spec fn flood_progress(
    b: ButtonInfos,
    blocked: Seq<ButtonPush>,
    sx: int,
    sy: int,
    added: Seq<ButtonPush>,
) -> bool {
    &&& forall|i: int| 0 <= i < added.len() ==> eligible(b, blocked, #[trigger] added[i])
    &&& forall|i: int, j: int| 0 <= i < j < added.len() ==> added[i] != added[j]
    &&& forall|i: int|
        #![trigger added[i]]
        0 <= i < added.len() ==> touches(added[i], sx, sy) || exists|j: int|
            0 <= j < i && is_zero(b, #[trigger] added[j]) && touches(
                added[i],
                added[j].x as int,
                added[j].y as int,
            )
    &&& forall|q: ButtonPush, j: int|
        #![trigger added.contains(q), added[j]]
        0 <= j < added.len() && is_zero(b, added[j]) && eligible(b, blocked, q) && touches(
            q,
            added[j].x as int,
            added[j].y as int,
        ) ==> added.contains(q)
}

/// `added` is what the flood fill from `(sx, sy)` opens on `b`, starting
/// with the positions `blocked` already taken: the eligible positions that
/// can be reached from `(sx, sy)` by steps between touching buttons, every
/// intermediate one eligible and showing 0. Spelled out: `flood_progress`
/// holds, and every eligible position that touches `(sx, sy)` is in `added`.
pub open spec fn flood_result(
    b: ButtonInfos,
    blocked: Seq<ButtonPush>,
    sx: int,
    sy: int,
    added: Seq<ButtonPush>,
) -> bool {
    &&& flood_progress(b, blocked, sx, sy, added)
    &&& forall|q: ButtonPush|
        eligible(b, blocked, q) && touches(q, sx, sy) ==> #[trigger] added.contains(q)
}

/// 1 when the seed grid `num` puts a mine at `(x, y)`, else 0.
pub open spec fn seed_mine(num: [[u8; LINE]; LINE], x: int, y: int) -> int {
    if in_range(x, y) && num@[x]@[y] == MINE {
        1
    } else {
        0
    }
}

/// Number of mines that `num` puts around `(x, y)`.
pub open spec fn seed_neighbors(num: [[u8; LINE]; LINE], x: int, y: int) -> int {
    seed_mine(num, x - 1, y - 1) + seed_mine(num, x - 1, y) + seed_mine(num, x - 1, y + 1)
        + seed_mine(num, x, y - 1) + seed_mine(num, x, y + 1) + seed_mine(num, x + 1, y - 1)
        + seed_mine(num, x + 1, y) + seed_mine(num, x + 1, y + 1)
}

/// Mines that `num` puts in the first `k` cells of the column `vx`, from
/// row `y - 1` on.
pub open spec fn seed_column(num: [[u8; LINE]; LINE], vx: int, y: int, k: int) -> int
    decreases k,
{
    if k <= 0 {
        0
    } else {
        seed_column(num, vx, y, k - 1) + seed_mine(num, vx, y - 1 + (k - 1))
    }
}

/// Mines that `num` puts in the first `k` columns of the 3 x 3 block
/// around `(x, y)`, from column `x - 1` on.
pub open spec fn seed_block(num: [[u8; LINE]; LINE], x: int, y: int, k: int) -> int
    decreases k,
{
    if k <= 0 {
        0
    } else {
        seed_block(num, x, y, k - 1) + seed_column(num, x - 1 + (k - 1), y, 3)
    }
}

/// Pixel position of the centre of the button in row or column `i`.
pub open spec fn pixel(i: int) -> int {
    i * (SIZE - 1) + SIZE * 3 / 2
}

/// The button that the seed grid `num` puts at `(x, y)`: a mine where `num`
/// holds `MINE`, else the number of mines around it; unpressed.
pub open spec fn seeded_cell(num: [[u8; LINE]; LINE], x: int, y: int) -> ButtonInfo {
    ButtonInfo {
        number: if num@[x]@[y] == MINE {
            MINE
        } else {
            seed_neighbors(num, x, y) as u8
        },
        x: x as usize,
        y: y as usize,
        tx: pixel(x) as u32,
        ty: pixel(y) as u32,
        is_ext: true,
    }
}

/// `b` is the board that the seed grid `num`, with every value drawn from
/// `0..SEED_RANGE`, lays out.
pub open spec fn seeded_from(num: [[u8; LINE]; LINE], b: ButtonInfos) -> bool {
    forall|x: int, y: int|
        #![trigger b.cell(x, y)]
        in_range(x, y) ==> num@[x]@[y] < SEED_RANGE && b.cell(x, y) == seeded_cell(num, x, y)
}

/// The value drawn for position `(x, y)`: draws are made row by row, so it
/// is draw number `y * LINE + x`.
pub open spec fn draw_at(draws: Seq<Draw>, x: int, y: int) -> u8 {
    draws[y * LINE + x]@
}

/// `draws` holds one draw per board position, and `num` holds at each
/// position the value drawn for it.
pub open spec fn draws_match(num: [[u8; LINE]; LINE], draws: Seq<Draw>) -> bool {
    &&& draws.len() == LINE * LINE
    &&& forall|x: int, y: int|
        #![trigger num@[x]@[y]]
        in_range(x, y) ==> num@[x]@[y] == draw_at(draws, x, y)
}

/// `b` is the board laid out from the values `draws`, one per position.
pub open spec fn laid_out_from(draws: Seq<Draw>, b: ButtonInfos) -> bool {
    exists|num: [[u8; LINE]; LINE]| #[trigger] seeded_from(num, b) && draws_match(num, draws)
}

/// 1 when the draw for `(x, y)` is `MINE`, else 0 (0 off the board).
pub open spec fn draw_mine(draws: Seq<Draw>, x: int, y: int) -> int {
    if in_range(x, y) && draw_at(draws, x, y) == MINE {
        1
    } else {
        0
    }
}

/// Number of positions around `(x, y)` whose draw is `MINE`.
pub open spec fn draw_mines_around(draws: Seq<Draw>, x: int, y: int) -> int {
    draw_mine(draws, x - 1, y - 1) + draw_mine(draws, x - 1, y) + draw_mine(draws, x - 1, y + 1)
        + draw_mine(draws, x, y - 1) + draw_mine(draws, x, y + 1) + draw_mine(draws, x + 1, y - 1)
        + draw_mine(draws, x + 1, y) + draw_mine(draws, x + 1, y + 1)
}

/// Positions whose draw is not `MINE`.
pub open spec fn draw_safe(draws: Seq<Draw>) -> spec_fn(int, int) -> bool {
    |x: int, y: int| draw_at(draws, x, y) != MINE
}

/// `b` and `c` are what laying out a board from `draws` gives, stated
/// button by button: one draw per position, each below `SEED_RANGE`; every
/// button unpressed, knowing its position and pixel centre; a mine exactly
/// where the draw is `MINE`; every other button showing how many draws
/// around it are `MINE`; the counter at 0 out of the number of draws that
/// are not `MINE`.
pub open spec fn draws_laid_out(draws: Seq<Draw>, b: ButtonInfos, c: ClearCount) -> bool {
    &&& draws.len() == LINE * LINE
    &&& forall|x: int, y: int| in_range(x, y) ==> #[trigger] draw_at(draws, x, y) < SEED_RANGE
    &&& forall|x: int, y: int|
        #![trigger b.cell(x, y)]
        in_range(x, y) ==> {
            &&& b.cell(x, y).x == x
            &&& b.cell(x, y).y == y
            &&& b.cell(x, y).tx == pixel(x)
            &&& b.cell(x, y).ty == pixel(y)
            &&& b.cell(x, y).is_ext
            &&& (b.cell(x, y).number == MINE <==> draw_at(draws, x, y) == MINE)
            &&& draw_at(draws, x, y) != MINE ==> b.cell(x, y).number == draw_mines_around(
                draws,
                x,
                y,
            )
        }
    &&& c.count == 0
    &&& c.all == count_pos(LINE * LINE, draw_safe(draws))
}

/// Positions where `num` puts no mine.
pub open spec fn seed_safe(num: [[u8; LINE]; LINE]) -> spec_fn(int, int) -> bool {
    |x: int, y: int| num@[x]@[y] != MINE
}

/// `path` is a walk of the flood fill from `(sx, sy)`: it is not empty, its
/// first position touches `(sx, sy)`, every position on it is eligible, and
/// every position but the last shows 0 and touches the next one.
pub open spec fn is_flood_path(
    b: ButtonInfos,
    blocked: Seq<ButtonPush>,
    sx: int,
    sy: int,
    path: Seq<ButtonPush>,
) -> bool {
    &&& path.len() > 0
    &&& touches(path[0], sx, sy)
    &&& forall|i: int| 0 <= i < path.len() ==> eligible(b, blocked, #[trigger] path[i])
    &&& forall|i: int|
        0 <= i < path.len() - 1 ==> is_zero(b, #[trigger] path[i]) && touches(
            path[i + 1],
            path[i].x as int,
            path[i].y as int,
        )
}

/// Some walk of the flood fill from `(sx, sy)` ends at `q`.
pub open spec fn flood_reaches(
    b: ButtonInfos,
    blocked: Seq<ButtonPush>,
    sx: int,
    sy: int,
    q: ButtonPush,
) -> bool {
    exists|path: Seq<ButtonPush>| #[trigger] is_flood_path(b, blocked, sx, sy, path) && path.last() == q
}

/// The positions taken after the flood fill scans the neighbours of
/// `(x, y)`, starting at neighbour `(x + xx - 1, y + yy - 1)`, with the
/// positions `s` taken before. Neighbours are scanned column by column
/// (`xx` from 0 to 2) and, within a column, row by row (`yy` from 0 to 2),
/// skipping `(x, y)` itself; each eligible neighbour (on the board, no
/// mine, unpressed, not yet taken) is appended, and if it shows 0 the
/// flood fill goes on from it at once, depth first, before the scan goes
/// on. `fuel` bounds the depth; more fuel than positions left untaken gives
/// the whole result.
pub open spec fn flood_scan(
    b: ButtonInfos,
    s: Seq<ButtonPush>,
    x: int,
    y: int,
    xx: int,
    yy: int,
    fuel: nat,
) -> Seq<ButtonPush>
    decreases fuel, 3 - xx, 3 - yy,
{
    if fuel == 0 || xx >= 3 {
        s
    } else if yy >= 3 {
        flood_scan(b, s, x, y, xx + 1, 0, fuel)
    } else {
        let vx = x + xx - 1;
        let vy = y + yy - 1;
        let p = push_of(vx, vy);
        if in_range(vx, vy) && !(xx == 1 && yy == 1) && b.cell(vx, vy).number != MINE && b.cell(
            vx,
            vy,
        ).is_ext && !s.contains(p) {
            let s1 = s.push(p);
            let s2 = if b.cell(vx, vy).number == 0 {
                flood_scan(b, s1, vx, vy, 0, 0, (fuel - 1) as nat)
            } else {
                s1
            };
            flood_scan(b, s2, x, y, xx, yy + 1, fuel)
        } else {
            flood_scan(b, s, x, y, xx, yy + 1, fuel)
        }
    }
}

/// The sequence `get_zero_button` leaves: `s` followed by the positions
/// the flood fill from `(x, y)` appends, in scan order (`flood_scan` with
/// more fuel than there are board positions).
pub open spec fn flood_sequence(b: ButtonInfos, s: Seq<ButtonPush>, x: int, y: int) -> Seq<
    ButtonPush,
> {
    flood_scan(b, s, x, y, 0, 0, (LINE * LINE + 1) as nat)
}

/// Number of board positions not in `s`.
pub open spec fn unvisited(s: Seq<ButtonPush>) -> int {
    count_pos(LINE * LINE, |x: int, y: int| !s.contains(push_of(x, y)))
}

} // verus!
