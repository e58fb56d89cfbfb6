use vstd::prelude::*;

use crate::board::{
    count_pos, eligible, flood_progress, flood_result, in_range, is_zero, pixel, playable,
    pressed_at, pressed_cell, push_of, seed_block, seed_column, seed_mine, seed_neighbors,
    seed_safe, seeded_cell, seeded_from, draw_at, draws_laid_out, draws_match, laid_out_from, touches, unvisited, flood_scan, flood_sequence,
};
use crate::count::{
    lemma_count_bounds, lemma_count_positive, lemma_index_of, lemma_pressed_none,
    lemma_pressed_one,
};
use crate::flood::{
    lemma_flood_push, lemma_flood_push_zero, lemma_flood_transfer, lemma_pressed_compose,
    lemma_scan_pressed_start, lemma_unvisited_decreases,
};
use crate::define::{LINE, MINE, SEED_RANGE, SIZE};
use crate::laws::{
    lemma_cleared_iff_counts, lemma_layout_follows_draws, lemma_press_keeps_playable, lemma_repress_presses_nothing,
    lemma_seeded_playable,
};
use crate::rng::{random_below, Draw};

verus! {

/// One button of the board: the number shown once it is pressed (`MINE`
/// for a mine, otherwise the number of neighbouring mines), its position
/// on the board, the pixel position of its centre, and whether it is still
/// unpressed (`is_ext`).
#[derive(Debug, Clone, Copy, PartialEq, Eq, Structural)]
pub struct ButtonInfo {
    pub number: u8,
    pub x: usize,
    pub y: usize,
    pub tx: u32,
    pub ty: u32,
    pub is_ext: bool,
}

impl ButtonInfo {
    pub fn new() -> (r: ButtonInfo)
        ensures
            r == (ButtonInfo { number: 0, x: 0, y: 0, tx: 0, ty: 0, is_ext: true }),
    {
        ButtonInfo { number: 0, x: 0, y: 0, tx: 0, ty: 0, is_ext: true }
    }

    pub fn set(_number: u8, _x: usize, _y: usize, _tx: u32, _ty: u32, _is_ext: bool) -> (r:
        ButtonInfo)
        ensures
            r == (ButtonInfo { number: _number, x: _x, y: _y, tx: _tx, ty: _ty, is_ext: _is_ext }),
    {
        ButtonInfo { number: _number, x: _x, y: _y, tx: _tx, ty: _ty, is_ext: _is_ext }
    }
}

/// All buttons of the board, indexed `info[x][y]`.
pub struct ButtonInfos {
    pub info: [[ButtonInfo; LINE]; LINE],
}

/// A board position, as handed to the reveal step.
#[derive(Debug, Clone, Copy, PartialEq, Eq, Structural)]
pub struct ButtonPush {
    pub x: usize,
    pub y: usize,
}

impl ButtonPush {
    pub fn set(_x: usize, _y: usize) -> (r: ButtonPush)
        ensures
            r == (ButtonPush { x: _x, y: _y }),
    {
        ButtonPush { x: _x, y: _y }
    }
}

/// Progress counter: `count` buttons pressed out of `all` buttons without a mine.
#[derive(Debug, Clone, Copy, PartialEq, Eq, Structural)]
pub struct ClearCount {
    pub count: i32,
    pub all: i32,
}

/// What pressing a button led to.
#[derive(Debug)]
pub enum ButtonUpdate {
    /// The button hid a mine: the game is lost and nothing was pressed.
    GameOver,
    /// The buttons in `revealed` were pressed, in this order; `ending` says
    /// whether every button without a mine is now pressed.
    Pushed { revealed: Vec<ButtonPush>, ending: bool },
}

/// Marker for the text that shows the frame rate.
pub struct FpsText;

/// Marker for the text that shows the progress counter.
pub struct ClearText;

} // verus!

verus! {

/// Presses the button at `(x, y)` if there is one and it is still
/// unpressed: it becomes pressed and the counter goes up by one. A position
/// off the board, or an already pressed button, changes nothing. Returns
/// whether a button was pressed.
pub fn push_button(x: usize, y: usize, clear: &mut ClearCount, btnis: &mut ButtonInfos) -> (pushed:
    bool)
    requires
        in_range(x as int, y as int) && old(btnis).cell(x as int, y as int).is_ext
            ==> old(clear).count < i32::MAX,
    ensures
        pushed == (in_range(x as int, y as int) && old(btnis).cell(x as int, y as int).is_ext),
        !pushed ==> *final(btnis) == *old(btnis) && *final(clear) == *old(clear),
        pressed_at(*old(btnis), *final(btnis), seq![push_of(x as int, y as int)]),
        final(clear).count == old(clear).count + if pushed { 1int } else { 0int },
        final(clear).all == old(clear).all,
        final(btnis).unpressed_count() == old(btnis).unpressed_count() - if pushed {
            1int
        } else {
            0int
        },
        final(btnis).pressed_count() == old(btnis).pressed_count() + if pushed {
            1int
        } else {
            0int
        },
        final(btnis).safe_count() == old(btnis).safe_count(),
{
    let ghost before = *btnis;
    if x < LINE && y < LINE && btnis.info[x][y].is_ext {
        btnis.info[x][y].is_ext = false;
        clear.count = clear.count + 1;
        proof {
            lemma_pressed_one(before, *btnis, x as int, y as int);
        }
        true
    } else {
        proof {
            lemma_pressed_none(before, *btnis, x as int, y as int);
        }
        false
    }
}

} // verus!

verus! {

/// Whether `bps` holds the position `(x, y)`.
pub fn contains_push(bps: &Vec<ButtonPush>, x: usize, y: usize) -> (r: bool)
    ensures
        r == bps@.contains(ButtonPush { x, y }),
{
    let mut i: usize = 0;
    while i < bps.len()
        invariant
            i <= bps@.len(),
            forall|k: int| 0 <= k < i ==> bps@[k] != (ButtonPush { x, y }),
        decreases bps@.len() - i,
    {
        if bps[i].x == x && bps[i].y == y {
            assert(bps@[i as int] == ButtonPush { x, y });
            return true;
        }
        i = i + 1;
    }
    false
}

/// The flood fill from `(x, y)` with a bound `fuel` on its depth, which the
/// caller makes larger than the number of positions not yet in `bps`.
fn zero_scan(
    x: usize,
    y: usize,
    btnis: &ButtonInfos,
    bps: &mut Vec<ButtonPush>,
    Ghost(fuel): Ghost<nat>,
)
    requires
        x + 2 <= usize::MAX,
        y + 2 <= usize::MAX,
        fuel > unvisited(old(bps)@),
    ensures
        old(bps)@.len() <= final(bps)@.len(),
        final(bps)@.subrange(0, old(bps)@.len() as int) == old(bps)@,
        flood_result(
            *btnis,
            old(bps)@,
            x as int,
            y as int,
            final(bps)@.skip(old(bps)@.len() as int),
        ),
        final(bps)@ == flood_scan(*btnis, old(bps)@, x as int, y as int, 0, 0, fuel),
    decreases fuel,
{
    let ghost o = bps@;
    let ghost b = *btnis;
    let ghost n0 = o.len() as int;
    proof {
        lemma_count_bounds(LINE * LINE, |x: int, y: int| !o.contains(push_of(x, y)));
    }
    let mut xx: usize = 0;
    while xx < 3
        invariant
            fuel > 0,
            xx <= 3,
            x + 2 <= usize::MAX,
            y + 2 <= usize::MAX,
            b == *btnis,
            o == old(bps)@,
            n0 == o.len(),
            fuel > unvisited(o),
            n0 <= bps@.len(),
            bps@.subrange(0, n0) == o,
            flood_progress(b, o, x as int, y as int, bps@.skip(n0)),
            forall|q: ButtonPush|
                eligible(b, o, q) && touches(q, x as int, y as int) && q.x < x + xx - 1
                    ==> #[trigger] bps@.skip(n0).contains(q),
            flood_scan(b, o, x as int, y as int, 0, 0, fuel) == flood_scan(
                b,
                bps@,
                x as int,
                y as int,
                xx as int,
                0,
                fuel,
            ),
        decreases 3 - xx,
    {
        let mut yy: usize = 0;
        while yy < 3
            invariant
                fuel > 0,
                xx < 3,
                yy <= 3,
                x + 2 <= usize::MAX,
                y + 2 <= usize::MAX,
                b == *btnis,
                o == old(bps)@,
                n0 == o.len(),
                fuel > unvisited(o),
                n0 <= bps@.len(),
                bps@.subrange(0, n0) == o,
                flood_progress(b, o, x as int, y as int, bps@.skip(n0)),
                forall|q: ButtonPush|
                    eligible(b, o, q) && touches(q, x as int, y as int) && (q.x < x + xx - 1 || (
                    q.x == x + xx - 1 && q.y < y + yy - 1)) ==> #[trigger] bps@.skip(n0).contains(
                        q,
                    ),
                flood_scan(b, o, x as int, y as int, 0, 0, fuel) == flood_scan(
                    b,
                    bps@,
                    x as int,
                    y as int,
                    xx as int,
                    yy as int,
                    fuel,
                ),
            decreases 3 - yy,
        {
            let ghost s0 = bps@;
            if x + xx >= 1 && x + xx - 1 < LINE && y + yy >= 1 && y + yy - 1 < LINE && !(xx == 1
                && yy == 1) {
                let vx = x + xx - 1;
                let vy = y + yy - 1;
                let cell = btnis.info[vx][vy];
                let c = ButtonPush::set(vx, vy);
                proof {
                    assert(push_of(vx as int, vy as int) == c);
                }
                if cell.number != MINE && cell.is_ext && !contains_push(bps, vx, vy) {
                    let ghost added = bps@.skip(n0);
                    proof {
                        assert(bps@ =~= o + added);
                        assert(!o.contains(c)) by {
                            if o.contains(c) {
                                let k = choose|k: int| 0 <= k < o.len() && o[k] == c;
                                assert(bps@[k] == c);
                            }
                        }
                        assert(!added.contains(c)) by {
                            if added.contains(c) {
                                let k = choose|k: int| 0 <= k < added.len() && added[k] == c;
                                assert(bps@[n0 + k] == c);
                            }
                        }
                    }
                    bps.push(c);
                    proof {
                        assert(bps@.skip(n0) =~= added.push(c));
                        assert(bps@.subrange(0, n0) =~= o);
                        assert(bps@ =~= o + added.push(c));
                        assert forall|p: ButtonPush| o.contains(p) implies #[trigger] bps@.contains(
                            p,
                        ) by {
                            let k = choose|k: int| 0 <= k < o.len() && o[k] == p;
                            assert(bps@[k] == p);
                        }
                        assert(bps@[bps@.len() - 1] == c);
                        lemma_unvisited_decreases(o, bps@, c);
                    }
                    if cell.number == 0 {
                        let ghost mid = bps@;
                        proof {
                            lemma_count_bounds(
                                LINE * LINE,
                                |x: int, y: int| !mid.contains(push_of(x, y)),
                            );
                        }
                        zero_scan(vx, vy, btnis, bps, Ghost((fuel - 1) as nat));
                        proof {
                            let inner = bps@.skip(mid.len() as int);
                            lemma_flood_push_zero(b, o, x as int, y as int, added, c, inner);
                            assert(bps@.skip(n0) =~= added.push(c) + inner);
                            assert(bps@.subrange(0, n0) =~= mid.subrange(0, n0));
                        }
                    } else {
                        proof {
                            lemma_flood_push(b, o, x as int, y as int, added, c);
                        }
                    }
                    proof {
                        let a2 = bps@.skip(n0);
                        assert forall|q: ButtonPush| added.contains(q) implies #[trigger] a2.contains(
                            q,
                        ) by {
                            let k = choose|k: int| 0 <= k < added.len() && added[k] == q;
                            assert(a2[k] == q);
                        }
                        assert(a2[added.len() as int] == c);
                    }
                } else {
                    proof {
                        if cell.number != MINE && cell.is_ext {
                            let k = choose|k: int| 0 <= k < bps@.len() && bps@[k] == c;
                            if k >= n0 {
                                assert(bps@.skip(n0)[k - n0] == c);
                            } else {
                                assert(o[k] == c);
                            }
                        }
                    }
                }
            }
            proof {
                assert(flood_scan(b, s0, x as int, y as int, xx as int, yy as int, fuel)
                    == flood_scan(b, bps@, x as int, y as int, xx as int, yy + 1, fuel));
            }
            yy = yy + 1;
        }
        proof {
            assert(flood_scan(b, bps@, x as int, y as int, xx as int, 3, fuel) == flood_scan(
                b,
                bps@,
                x as int,
                y as int,
                xx + 1,
                0,
                fuel,
            ));
        }
        xx = xx + 1;
    }
}

/// Flood fill from `(x, y)`: appends to `bps` every position that is reached
/// through neighbouring buttons showing 0, skipping mines, pressed buttons
/// and positions already in `bps` (see `flood_result`), in the order of a
/// depth-first scan of the neighbours, column by column and row by row
/// within a column (see `flood_sequence`).
pub fn get_zero_button(x: usize, y: usize, btnis: &ButtonInfos, bps: &mut Vec<ButtonPush>)
    requires
        x + 2 <= usize::MAX,
        y + 2 <= usize::MAX,
    ensures
        old(bps)@.len() <= final(bps)@.len(),
        final(bps)@.subrange(0, old(bps)@.len() as int) == old(bps)@,
        flood_result(
            *btnis,
            old(bps)@,
            x as int,
            y as int,
            final(bps)@.skip(old(bps)@.len() as int),
        ),
        final(bps)@ == flood_sequence(*btnis, old(bps)@, x as int, y as int),
{
    proof {
        let ghost o = bps@;
        lemma_count_bounds(LINE * LINE, |x: int, y: int| !o.contains(push_of(x, y)));
    }
    zero_scan(x, y, btnis, bps, Ghost((LINE * LINE + 1) as nat));
}

} // verus!

verus! {

/// Number of mines that `num` puts in the 3 x 3 block around `(x, y)`,
/// the centre included.
fn count_mines_around(num: &[[u8; LINE]; LINE], x: usize, y: usize) -> (cnt: u8)
    requires
        in_range(x as int, y as int),
    ensures
        cnt == seed_block(*num, x as int, y as int, 3),
        cnt == seed_mine(*num, x as int, y as int) + seed_neighbors(*num, x as int, y as int),
{
    let mut cnt: u8 = 0;
    let mut xx: usize = 0;
    while xx < 3
        invariant
            xx <= 3,
            in_range(x as int, y as int),
            cnt == seed_block(*num, x as int, y as int, xx as int),
            cnt <= 3 * xx,
        decreases 3 - xx,
    {
        let ghost before = cnt;
        let mut yy: usize = 0;
        while yy < 3
            invariant
                xx < 3,
                yy <= 3,
                in_range(x as int, y as int),
                cnt == before + seed_column(*num, x + xx - 1, y as int, yy as int),
                before <= 3 * xx,
                cnt <= before + yy,
            decreases 3 - yy,
        {
            if x + xx >= 1 && x + xx - 1 < LINE && y + yy >= 1 && y + yy - 1 < LINE {
                let vx = x + xx - 1;
                let vy = y + yy - 1;
                if num[vx][vy] == MINE {
                    cnt = cnt + 1;
                }
            }
            yy = yy + 1;
        }
        xx = xx + 1;
    }
    proof {
        reveal_with_fuel(seed_block, 4);
        reveal_with_fuel(seed_column, 4);
    }
    cnt
}

/// Pixel position of the centre of the button in row or column `i`.
fn pixel_of(i: usize) -> (r: u32)
    requires
        i < LINE,
    ensures
        r == pixel(i as int),
{
    assert((i as u32) * 49 <= 14 * 49) by (nonlinear_arith)
        requires
            i < 15,
    ;
    (i as u32) * (SIZE - 1) + SIZE * 3 / 2
}

/// Lays out the board around the seed grid `num`: a mine wherever `num`
/// holds `MINE`, elsewhere the number of mines around, every button
/// unpressed; the counter is reset and `all` counts the buttons without a
/// mine.
pub fn fill_board(num: &[[u8; LINE]; LINE], clear: &mut ClearCount, btnis: &mut ButtonInfos)
    ensures
        forall|x: int, y: int|
            #![trigger final(btnis).cell(x, y)]
            in_range(x, y) ==> final(btnis).cell(x, y) == seeded_cell(*num, x, y),
        final(clear).count == 0,
        final(clear).all == count_pos(LINE * LINE, seed_safe(*num)),
{
    clear.count = 0;
    clear.all = 0;
    let mut y: usize = 0;
    while y < LINE
        invariant
            y <= LINE,
            clear.count == 0,
            clear.all == count_pos(y * LINE, seed_safe(*num)),
            forall|i: int, j: int|
                #![trigger btnis.cell(i, j)]
                in_range(i, j) && j < y ==> btnis.cell(i, j) == seeded_cell(*num, i, j),
        decreases LINE - y,
    {
        let mut x: usize = 0;
        while x < LINE
            invariant
                y < LINE,
                x <= LINE,
                clear.count == 0,
                clear.all == count_pos(y * LINE + x, seed_safe(*num)),
                forall|i: int, j: int|
                    #![trigger btnis.cell(i, j)]
                    in_range(i, j) && (j < y || (j == y && i < x)) ==> btnis.cell(i, j)
                        == seeded_cell(*num, i, j),
            decreases LINE - x,
        {
            let mut cnt = count_mines_around(num, x, y);
            if num[x][y] == MINE {
                cnt = MINE;
            }
            let txx = pixel_of(x);
            let tyy = pixel_of(y);
            let ghost before = *btnis;
            btnis.info[x][y] = ButtonInfo::set(cnt, x, y, txx, tyy, true);
            proof {
                assert(btnis.cell(x as int, y as int) == seeded_cell(*num, x as int, y as int));
                assert forall|i: int, j: int| in_range(i, j) && !(i == x && j == y) implies #[trigger] btnis.cell(i, j) == before.cell(i, j) by {
                    if i != x {
                        assert(btnis.info@[i] == before.info@[i]);
                    }
                }
                lemma_index_of(x as int, y as int);
                lemma_count_bounds(y * LINE + x, seed_safe(*num));
            }
            if num[x][y] != MINE {
                clear.all = clear.all + 1;
            }
            x = x + 1;
        }
        y = y + 1;
    }
}

} // verus!

verus! {

/// Lays out a new board: draws a seed value from `0..SEED_RANGE` for every
/// position, row by row (the value `MINE` puts a mine), and builds the
/// board around them with `fill_board`. Returns the draws, in the order
/// they were made; the board and the counter follow them button by button
/// (`draws_laid_out`), and the result is a game in progress.
pub fn edit_clear_setting(clear: &mut ClearCount, btnis: &mut ButtonInfos) -> (draws: Vec<Draw>)
    ensures
        draws_laid_out(draws@, *final(btnis), *final(clear)),
        laid_out_from(draws@, *final(btnis)),
        playable(*final(btnis), *final(clear)),
        forall|x: int, y: int|
            #![trigger final(btnis).cell(x, y)]
            in_range(x, y) ==> final(btnis).cell(x, y).is_ext,
        final(clear).count == 0,
        exists|num: [[u8; LINE]; LINE]| #[trigger] seeded_from(num, *final(btnis)),
{
    clear.count = 0;
    clear.all = 0;
    let mut draws: Vec<Draw> = Vec::new();
    let mut num = [[0u8; LINE]; LINE];
    let mut y: usize = 0;
    while y < LINE
        invariant
            y <= LINE,
            draws@.len() == y * LINE,
            forall|i: int, j: int|
                #![trigger num@[i]@[j]]
                in_range(i, j) && j < y ==> num@[i]@[j] < SEED_RANGE && num@[i]@[j] == draw_at(
                    draws@,
                    i,
                    j,
                ),
        decreases LINE - y,
    {
        let mut x: usize = 0;
        while x < LINE
            invariant
                y < LINE,
                x <= LINE,
                draws@.len() == y * LINE + x,
                forall|i: int, j: int|
                    #![trigger num@[i]@[j]]
                    in_range(i, j) && (j < y || (j == y && i < x)) ==> num@[i]@[j] < SEED_RANGE
                        && num@[i]@[j] == draw_at(draws@, i, j),
            decreases LINE - x,
        {
            let rnd = random_below(SEED_RANGE);
            let ghost before = draws@;
            num[x][y] = rnd.value();
            draws.push(rnd);
            proof {
                assert forall|i: int, j: int|
                    in_range(i, j) && (j < y || (j == y && i < x)) implies draws@[j * LINE + i]
                    == before[j * LINE + i] by {}
            }
            x = x + 1;
        }
        y = y + 1;
    }
    fill_board(&num, clear, btnis);
    proof {
        lemma_seeded_playable(num, *btnis, *clear);
        assert(seeded_from(num, *btnis));
        assert(draws_match(num, draws@));
        lemma_layout_follows_draws(draws@, *btnis, *clear);
    }
    draws
}

/// Starts a new game: resets the counter and all buttons, then lays out a
/// new board with `edit_clear_setting`. Returns the draws it was laid out
/// from; the board and the counter follow them button by button.
pub fn setup_game(clear: &mut ClearCount, btnis: &mut ButtonInfos) -> (draws: Vec<Draw>)
    ensures
        draws_laid_out(draws@, *final(btnis), *final(clear)),
        laid_out_from(draws@, *final(btnis)),
        playable(*final(btnis), *final(clear)),
        forall|x: int, y: int|
            #![trigger final(btnis).cell(x, y)]
            in_range(x, y) ==> final(btnis).cell(x, y).is_ext,
        final(clear).count == 0,
        exists|num: [[u8; LINE]; LINE]| #[trigger] seeded_from(num, *final(btnis)),
{
    clear.count = 0;
    clear.all = 0;
    btnis.info = [[ButtonInfo::new(); LINE]; LINE];
    edit_clear_setting(clear, btnis)
}

} // verus!

verus! {

/// Presses the button at `(x, y)`. A mine ends the game and changes
/// nothing. Otherwise the button is pressed (if it was not yet), and if it
/// shows 0 the flood fill from it (`get_zero_button`) is pressed too; the
/// counter goes up by one for each button pressed, and `ending` tells
/// whether it has reached `all`.
pub fn update_button(btnis: &mut ButtonInfos, clear: &mut ClearCount, x: usize, y: usize) -> (r:
    ButtonUpdate)
    requires
        in_range(x as int, y as int),
        old(btnis).cell(x as int, y as int).number != MINE ==> old(clear).count
            + old(btnis).unpressed_count() <= i32::MAX,
    ensures
        old(btnis).cell(x as int, y as int).number == MINE ==> r is GameOver && *final(btnis)
            == *old(btnis) && *final(clear) == *old(clear),
        old(btnis).cell(x as int, y as int).number != MINE ==> (r matches ButtonUpdate::Pushed {
            revealed,
            ending,
        } && {
            let k: int = if old(btnis).cell(x as int, y as int).is_ext {
                1
            } else {
                0
            };
            &&& k <= revealed@.len()
            &&& k == 1 ==> revealed@[0] == push_of(x as int, y as int)
            &&& old(btnis).cell(x as int, y as int).number == 0 ==> flood_result(
                *old(btnis),
                seq![push_of(x as int, y as int)],
                x as int,
                y as int,
                revealed@.skip(k),
            )
            &&& old(btnis).cell(x as int, y as int).number == 0 ==> flood_sequence(
                *old(btnis),
                seq![push_of(x as int, y as int)],
                x as int,
                y as int,
            ) == seq![push_of(x as int, y as int)] + revealed@.skip(k)
            &&& old(btnis).cell(x as int, y as int).number != 0 ==> revealed@.len() == k
            &&& pressed_at(*old(btnis), *final(btnis), revealed@)
            &&& final(btnis).unpressed_count() == old(btnis).unpressed_count() - revealed@.len()
            &&& final(btnis).pressed_count() == old(btnis).pressed_count() + revealed@.len()
            &&& final(btnis).safe_count() == old(btnis).safe_count()
            &&& final(clear).count == old(clear).count + revealed@.len()
            &&& final(clear).all == old(clear).all
            &&& ending == (final(clear).count == final(clear).all)
            &&& playable(*old(btnis), *old(clear)) ==> (ending <==> final(btnis).all_cleared())
            &&& playable(*old(btnis), *old(clear)) && !old(btnis).cell(x as int, y as int).is_ext
                ==> revealed@.len() == 0
        }),
        playable(*old(btnis), *old(clear)) ==> playable(*final(btnis), *final(clear)),
{
    let ghost b0 = *btnis;
    let ghost c0 = *clear;
    let ghost start = push_of(x as int, y as int);
    let cell = btnis.info[x][y];
    if cell.number == MINE {
        return ButtonUpdate::GameOver;
    }
    let mut revealed: Vec<ButtonPush> = Vec::new();
    proof {
        lemma_index_of(x as int, y as int);
        if cell.is_ext {
            lemma_count_positive(LINE * LINE, b0.unpressed(), y * LINE + x);
        }
    }
    let pushed = push_button(x, y, clear, btnis);
    if pushed {
        revealed.push(ButtonPush::set(x, y));
        proof {
            assert(revealed@ =~= seq![start]);
        }
    } else {
        proof {
            assert(pressed_at(b0, *btnis, revealed@)) by {
                assert forall|i: int, j: int| #[trigger] in_range(i, j) implies btnis.cell(i, j)
                    == b0.cell(i, j) by {
                    assert(btnis.cell(i, j) == if seq![start].contains(push_of(i, j)) {
                        pressed_cell(b0.cell(i, j))
                    } else {
                        b0.cell(i, j)
                    });
                }
            }
        }
    }
    let ghost b1 = *btnis;
    let ghost r0 = revealed@;
    proof {
        assert(pressed_at(b0, b1, seq![start]));
        assert(b1.cell(x as int, y as int) == pressed_cell(b0.cell(x as int, y as int))) by {
            assert(seq![start][0] == start);
        }
        assert forall|i: int, j: int|
            #[trigger] in_range(i, j) && !(i == x && j == y) implies b1.cell(i, j) == b0.cell(
            i,
            j,
        ) by {
            if seq![start].contains(push_of(i, j)) {
                assert(seq![start][0] == push_of(i, j));
            }
        }
    }
    if cell.number == 0 {
        let mut bps: Vec<ButtonPush> = Vec::new();
        get_zero_button(x, y, btnis, &mut bps);
        proof {
            assert(bps@.skip(0) =~= bps@);
            assert forall|q: ButtonPush| #[trigger] eligible(b1, seq![], q) == eligible(
                b0,
                seq![start],
                q,
            ) by {
                if in_range(q.x as int, q.y as int) {
                    if q == start {
                        assert(seq![start][0] == q);
                    } else {
                        assert(b1.cell(q.x as int, q.y as int) == b0.cell(q.x as int, q.y as int));
                        if seq![start].contains(q) {
                            assert(seq![start][0] == q);
                        }
                    }
                }
            }
            assert forall|q: ButtonPush| #[trigger] is_zero(b1, q) == is_zero(b0, q) by {
                if in_range(q.x as int, q.y as int) {
                    if q.x == x && q.y == y {
                        assert(b1.cell(q.x as int, q.y as int).number == b0.cell(
                            q.x as int,
                            q.y as int,
                        ).number);
                    } else {
                        assert(b1.cell(q.x as int, q.y as int) == b0.cell(q.x as int, q.y as int));
                    }
                }
            }
            lemma_flood_transfer(b1, seq![], b0, seq![start], x as int, y as int, bps@);
            lemma_scan_pressed_start(
                b0,
                b1,
                start,
                seq![],
                x as int,
                y as int,
                0,
                0,
                (LINE * LINE + 1) as nat,
            );
            assert(seq![start] + seq![] =~= seq![start]);
        }
        let mut i: usize = 0;
        while i < bps.len()
            invariant
                i <= bps@.len(),
                flood_result(b1, seq![], x as int, y as int, bps@),
                r0.len() <= 1,
                r0.len() == 1 ==> r0[0] == start,
                revealed@ == r0 + bps@.subrange(0, i as int),
                pressed_at(b0, b1, r0),
                pressed_at(b1, *btnis, bps@.subrange(0, i as int)),
                pressed_at(b0, *btnis, revealed@),
                btnis.unpressed_count() == b0.unpressed_count() - revealed@.len(),
                btnis.pressed_count() == b0.pressed_count() + revealed@.len(),
                btnis.safe_count() == b0.safe_count(),
                clear.count == c0.count + revealed@.len(),
                clear.all == c0.all,
                c0.count + b0.unpressed_count() <= i32::MAX,
            decreases bps@.len() - i,
        {
            let p = bps[i];
            let ghost cur = *btnis;
            let ghost rev = revealed@;
            proof {
                assert(eligible(b1, seq![], p));
                let pre = bps@.subrange(0, i as int);
                assert(!pre.contains(p)) by {
                    if pre.contains(p) {
                        let k = choose|k: int| 0 <= k < pre.len() && pre[k] == p;
                        assert(bps@[k] == p);
                    }
                }
                assert(cur.cell(p.x as int, p.y as int) == b1.cell(p.x as int, p.y as int)) by {
                    assert(push_of(p.x as int, p.y as int) == p);
                }
                lemma_index_of(p.x as int, p.y as int);
                lemma_count_positive(LINE * LINE, cur.unpressed(), p.y * LINE + p.x);
            }
            let pushed = push_button(p.x, p.y, clear, btnis);
            revealed.push(p);
            proof {
                lemma_pressed_compose(b1, cur, *btnis, bps@.subrange(0, i as int), seq![p]);
                assert(bps@.subrange(0, i as int) + seq![p] =~= bps@.subrange(0, i + 1));
                lemma_pressed_compose(b0, cur, *btnis, rev, seq![p]);
                assert(rev + seq![p] =~= revealed@);
                assert(r0 + bps@.subrange(0, i + 1) =~= revealed@);
            }
            i = i + 1;
        }
        proof {
            assert(bps@.subrange(0, bps@.len() as int) =~= bps@);
            assert(revealed@.skip(r0.len() as int) =~= bps@);
        }
    }
    let ending = clear.count == clear.all;
    proof {
        let k: int = if b0.cell(x as int, y as int).is_ext {
            1
        } else {
            0
        };
        if playable(b0, c0) {
            lemma_press_keeps_playable(b0, c0, *btnis, *clear, x as int, y as int, revealed@, k);
            lemma_cleared_iff_counts(*btnis);
            if !b0.cell(x as int, y as int).is_ext {
                lemma_repress_presses_nothing(b0, x as int, y as int, revealed@);
            }
        }
    }
    ButtonUpdate::Pushed { revealed, ending }
}

} // verus!

verus! {

/// Number of buttons still unpressed.
pub fn unpressed_buttons(btnis: &ButtonInfos) -> (n: u32)
    ensures
        n == btnis.unpressed_count(),
{
    let mut n: u32 = 0;
    let mut y: usize = 0;
    while y < LINE
        invariant
            y <= LINE,
            n == count_pos(y * LINE, btnis.unpressed()),
        decreases LINE - y,
    {
        let mut x: usize = 0;
        while x < LINE
            invariant
                y < LINE,
                x <= LINE,
                n == count_pos(y * LINE + x, btnis.unpressed()),
            decreases LINE - x,
        {
            proof {
                lemma_index_of(x as int, y as int);
                lemma_count_bounds(y * LINE + x, btnis.unpressed());
            }
            if btnis.info[x][y].is_ext {
                n = n + 1;
            }
            x = x + 1;
        }
        y = y + 1;
    }
    n
}

} // verus!
