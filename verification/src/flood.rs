use vstd::prelude::*;

use crate::board::{
    count_pos, eligible, flood_progress, flood_result, flood_scan, holds_at, in_range, is_zero,
    pressed_at,
    pressed_cell, push_of,
    touches, unvisited,
};
use crate::count::{lemma_count_strict, lemma_index_of};
use crate::define::{LINE, MINE};
use crate::game::{ButtonInfos, ButtonPush};

verus! {

/// Taking a new board position makes the number of unvisited positions drop.
pub proof fn lemma_unvisited_decreases(s1: Seq<ButtonPush>, s2: Seq<ButtonPush>, c: ButtonPush)
    requires
        forall|p: ButtonPush| s1.contains(p) ==> #[trigger] s2.contains(p),
        in_range(c.x as int, c.y as int),
        s2.contains(c),
        !s1.contains(c),
    ensures
        unvisited(s2) < unvisited(s1),
{
    let p1 = |x: int, y: int| !s1.contains(push_of(x, y));
    let p2 = |x: int, y: int| !s2.contains(push_of(x, y));
    let k = c.y * LINE + c.x;
    lemma_index_of(c.x as int, c.y as int);
    assert(push_of(c.x as int, c.y as int) == c);
    assert(holds_at(p1, k));
    assert forall|i: int| 0 <= i < LINE * LINE && #[trigger] holds_at(p2, i) implies holds_at(
        p1,
        i,
    ) by {
        let p = push_of(i % (LINE as int), i / (LINE as int));
        if s1.contains(p) {
            assert(s2.contains(p));
        }
    }
    lemma_count_strict(LINE * LINE, p2, p1, k);
}

/// Adding a position that touches the start and does not show 0 keeps the
/// flood fill's progress.
pub proof fn lemma_flood_push(
    b: ButtonInfos,
    o: Seq<ButtonPush>,
    sx: int,
    sy: int,
    added: Seq<ButtonPush>,
    c: ButtonPush,
)
    requires
        flood_progress(b, o, sx, sy, added),
        eligible(b, o, c),
        !added.contains(c),
        touches(c, sx, sy),
        !is_zero(b, c),
    ensures
        flood_progress(b, o, sx, sy, added.push(c)),
{
    let a2 = added.push(c);
    assert forall|i: int| 0 <= i < a2.len() implies eligible(b, o, #[trigger] a2[i]) by {
        if i < added.len() {
            assert(a2[i] == added[i]);
        }
    }
    assert forall|i: int, j: int| 0 <= i < j < a2.len() implies a2[i] != a2[j] by {
        if j == added.len() {
            assert(a2[i] == added[i]);
        }
    }
    assert forall|i: int| #![trigger a2[i]] 0 <= i < a2.len() implies touches(a2[i], sx, sy)
        || exists|j: int|
        0 <= j < i && is_zero(b, #[trigger] a2[j]) && touches(
            a2[i],
            a2[j].x as int,
            a2[j].y as int,
        ) by {
        if i < added.len() {
            assert(a2[i] == added[i]);
            if !touches(added[i], sx, sy) {
                let j = choose|j: int|
                    0 <= j < i && is_zero(b, #[trigger] added[j]) && touches(
                        added[i],
                        added[j].x as int,
                        added[j].y as int,
                    );
                assert(a2[j] == added[j]);
            }
        }
    }
    assert forall|q: ButtonPush, j: int|
        #![trigger a2.contains(q), a2[j]]
        0 <= j < a2.len() && is_zero(b, a2[j]) && eligible(b, o, q) && touches(
            q,
            a2[j].x as int,
            a2[j].y as int,
        ) implies a2.contains(q) by {
        assert(a2[j] == added[j]);
        assert(added.contains(q));
        let k = choose|k: int| 0 <= k < added.len() && added[k] == q;
        assert(a2[k] == q);
    }
}

/// Adding a position that touches the start and shows 0, followed by what
/// the flood fill opens from it, keeps the flood fill's progress.
pub proof fn lemma_flood_push_zero(
    b: ButtonInfos,
    o: Seq<ButtonPush>,
    sx: int,
    sy: int,
    added: Seq<ButtonPush>,
    c: ButtonPush,
    inner: Seq<ButtonPush>,
)
    requires
        flood_progress(b, o, sx, sy, added),
        eligible(b, o, c),
        !added.contains(c),
        touches(c, sx, sy),
        is_zero(b, c),
        flood_result(b, o + added.push(c), c.x as int, c.y as int, inner),
    ensures
        flood_progress(b, o, sx, sy, added.push(c) + inner),
{
    let a1 = added.push(c);
    let n1 = a1.len() as int;
    let a2 = a1 + inner;
    let blk = o + a1;
    assert forall|q: ButtonPush| o.contains(q) implies #[trigger] blk.contains(q) by {
        let k = choose|k: int| 0 <= k < o.len() && o[k] == q;
        assert(blk[k] == q);
    }
    assert forall|q: ButtonPush| a1.contains(q) implies #[trigger] blk.contains(q) by {
        let k = choose|k: int| 0 <= k < a1.len() && a1[k] == q;
        assert(blk[o.len() + k] == q);
    }
    assert forall|i: int| 0 <= i < a2.len() implies eligible(b, o, #[trigger] a2[i]) by {
        if i < added.len() {
            assert(a2[i] == added[i]);
        } else if i >= n1 {
            assert(a2[i] == inner[i - n1]);
            assert(eligible(b, blk, inner[i - n1]));
            if o.contains(a2[i]) {
                assert(blk.contains(a2[i]));
            }
        }
    }
    assert forall|i: int, j: int| 0 <= i < j < a2.len() implies a2[i] != a2[j] by {
        if j >= n1 {
            assert(a2[j] == inner[j - n1]);
            assert(eligible(b, blk, inner[j - n1]));
            if i < n1 {
                assert(a2[i] == a1[i]);
                assert(a1.contains(a1[i]));
                assert(blk.contains(a1[i]));
            } else {
                assert(a2[i] == inner[i - n1]);
            }
        } else if j == added.len() {
            assert(a2[i] == added[i]);
        } else {
            assert(a2[i] == added[i]);
            assert(a2[j] == added[j]);
        }
    }
    assert forall|i: int| #![trigger a2[i]] 0 <= i < a2.len() implies touches(a2[i], sx, sy)
        || exists|j: int|
        0 <= j < i && is_zero(b, #[trigger] a2[j]) && touches(
            a2[i],
            a2[j].x as int,
            a2[j].y as int,
        ) by {
        if i < added.len() {
            assert(a2[i] == added[i]);
            if !touches(added[i], sx, sy) {
                let j = choose|j: int|
                    0 <= j < i && is_zero(b, #[trigger] added[j]) && touches(
                        added[i],
                        added[j].x as int,
                        added[j].y as int,
                    );
                assert(a2[j] == added[j]);
            }
        } else if i >= n1 {
            assert(a2[i] == inner[i - n1]);
            assert(a2[n1 - 1] == c);
            if !touches(inner[i - n1], c.x as int, c.y as int) {
                let j = choose|j: int|
                    0 <= j < i - n1 && is_zero(b, #[trigger] inner[j]) && touches(
                        inner[i - n1],
                        inner[j].x as int,
                        inner[j].y as int,
                    );
                assert(a2[n1 + j] == inner[j]);
            }
        }
    }
    assert forall|q: ButtonPush, j: int|
        #![trigger a2.contains(q), a2[j]]
        0 <= j < a2.len() && is_zero(b, a2[j]) && eligible(b, o, q) && touches(
            q,
            a2[j].x as int,
            a2[j].y as int,
        ) implies a2.contains(q) by {
        if a1.contains(q) {
            let k = choose|k: int| 0 <= k < a1.len() && a1[k] == q;
            assert(a2[k] == q);
        } else {
            assert(!blk.contains(q)) by {
                if blk.contains(q) {
                    let k = choose|k: int| 0 <= k < blk.len() && blk[k] == q;
                    if k < o.len() {
                        assert(o[k] == q);
                    } else {
                        assert(a1[k - o.len()] == q);
                    }
                }
            }
            assert(eligible(b, blk, q));
            if j < added.len() {
                assert(a2[j] == added[j]);
                assert(added.contains(q));
                let k = choose|k: int| 0 <= k < added.len() && added[k] == q;
                assert(a1[k] == q);
            } else if j == added.len() {
                assert(a2[j] == c);
                assert(inner.contains(q));
            } else {
                assert(a2[j] == inner[j - n1]);
                assert(inner.contains(q));
            }
            if inner.contains(q) {
                let k = choose|k: int| 0 <= k < inner.len() && inner[k] == q;
                assert(a2[n1 + k] == q);
            }
        }
    }
}

} // verus!

verus! {

/// Pressing `s1` and then `s2` is pressing `s1 + s2`.
pub proof fn lemma_pressed_compose(
    b0: ButtonInfos,
    b1: ButtonInfos,
    b2: ButtonInfos,
    s1: Seq<ButtonPush>,
    s2: Seq<ButtonPush>,
)
    requires
        pressed_at(b0, b1, s1),
        pressed_at(b1, b2, s2),
    ensures
        pressed_at(b0, b2, s1 + s2),
{
    let s = s1 + s2;
    assert forall|i: int, j: int| #[trigger] in_range(i, j) implies b2.cell(i, j) == if s.contains(
        push_of(i, j),
    ) {
        pressed_cell(b0.cell(i, j))
    } else {
        b0.cell(i, j)
    } by {
        let p = push_of(i, j);
        assert(b1.cell(i, j) == if s1.contains(p) {
            pressed_cell(b0.cell(i, j))
        } else {
            b0.cell(i, j)
        });
        assert(b2.cell(i, j) == if s2.contains(p) {
            pressed_cell(b1.cell(i, j))
        } else {
            b1.cell(i, j)
        });
        if s1.contains(p) {
            let k = choose|k: int| 0 <= k < s1.len() && s1[k] == p;
            assert(s[k] == p);
        }
        if s2.contains(p) {
            let k = choose|k: int| 0 <= k < s2.len() && s2[k] == p;
            assert(s[s1.len() + k] == p);
        }
        if s.contains(p) {
            let k = choose|k: int| 0 <= k < s.len() && s[k] == p;
            if k < s1.len() {
                assert(s1[k] == p);
            } else {
                assert(s2[k - s1.len()] == p);
            }
        }
    }
}

/// The flood fill's result carries over between two boards and blocked
/// sequences that agree on which positions are eligible and which show 0.
pub proof fn lemma_flood_transfer(
    b1: ButtonInfos,
    blk1: Seq<ButtonPush>,
    b2: ButtonInfos,
    blk2: Seq<ButtonPush>,
    sx: int,
    sy: int,
    added: Seq<ButtonPush>,
)
    requires
        flood_result(b1, blk1, sx, sy, added),
        forall|q: ButtonPush| #[trigger] eligible(b1, blk1, q) == eligible(b2, blk2, q),
        forall|q: ButtonPush| #[trigger] is_zero(b1, q) == is_zero(b2, q),
    ensures
        flood_result(b2, blk2, sx, sy, added),
{
    assert forall|i: int| 0 <= i < added.len() implies eligible(b2, blk2, #[trigger] added[i]) by {
        assert(eligible(b1, blk1, added[i]));
    }
    assert forall|i: int| #![trigger added[i]] 0 <= i < added.len() implies touches(added[i], sx, sy)
        || exists|j: int|
        0 <= j < i && is_zero(b2, #[trigger] added[j]) && touches(
            added[i],
            added[j].x as int,
            added[j].y as int,
        ) by {
        if !touches(added[i], sx, sy) {
            let j = choose|j: int|
                0 <= j < i && is_zero(b1, #[trigger] added[j]) && touches(
                    added[i],
                    added[j].x as int,
                    added[j].y as int,
                );
            assert(is_zero(b2, added[j]));
        }
    }
    assert forall|q: ButtonPush, j: int|
        #![trigger added.contains(q), added[j]]
        0 <= j < added.len() && is_zero(b2, added[j]) && eligible(b2, blk2, q) && touches(
            q,
            added[j].x as int,
            added[j].y as int,
        ) implies added.contains(q) by {
        assert(is_zero(b1, added[j]));
        assert(eligible(b1, blk1, q));
    }
    assert forall|q: ButtonPush| eligible(b2, blk2, q) && touches(q, sx, sy) implies #[trigger] added.contains(q) by {
        assert(eligible(b1, blk1, q));
    }
}

} // verus!

verus! {

/// Scanning with the start `st` taken beforehand, on a board where `st` is
/// unpressed, appends the same positions as scanning from nothing on the
/// board where `st` is already pressed.
pub proof fn lemma_scan_pressed_start(
    b0: ButtonInfos,
    b1: ButtonInfos,
    st: ButtonPush,
    t: Seq<ButtonPush>,
    x: int,
    y: int,
    xx: int,
    yy: int,
    fuel: nat,
)
    requires
        in_range(st.x as int, st.y as int),
        forall|i: int, j: int|
            #![trigger b1.cell(i, j)]
            in_range(i, j) && !(i == st.x && j == st.y) ==> b1.cell(i, j) == b0.cell(i, j),
        b1.cell(st.x as int, st.y as int).number == b0.cell(st.x as int, st.y as int).number,
        !b1.cell(st.x as int, st.y as int).is_ext,
    ensures
        flood_scan(b0, seq![st] + t, x, y, xx, yy, fuel) == seq![st] + flood_scan(
            b1,
            t,
            x,
            y,
            xx,
            yy,
            fuel,
        ),
    decreases fuel, 3 - xx, 3 - yy,
{
    if fuel == 0 || xx >= 3 {
    } else if yy >= 3 {
        lemma_scan_pressed_start(b0, b1, st, t, x, y, xx + 1, 0, fuel);
    } else {
        let vx = x + xx - 1;
        let vy = y + yy - 1;
        let p = push_of(vx, vy);
        let s0 = seq![st] + t;
        assert(s0.contains(p) <==> (p == st || t.contains(p))) by {
            if s0.contains(p) {
                let k = choose|k: int| 0 <= k < s0.len() && s0[k] == p;
                if k > 0 {
                    assert(t[k - 1] == p);
                }
            }
            if p == st {
                assert(s0[0] == p);
            }
            if t.contains(p) {
                let k = choose|k: int| 0 <= k < t.len() && t[k] == p;
                assert(s0[k + 1] == p);
            }
        }
        if in_range(vx, vy) {
            if vx == st.x && vy == st.y {
                assert(p == st);
            } else {
                assert(b1.cell(vx, vy) == b0.cell(vx, vy));
            }
        }
        let c1 = in_range(vx, vy) && !(xx == 1 && yy == 1) && b1.cell(vx, vy).number != MINE
            && b1.cell(vx, vy).is_ext && !t.contains(p);
        if c1 {
            assert(p != st);
            let t1 = t.push(p);
            assert(s0.push(p) =~= seq![st] + t1);
            if b1.cell(vx, vy).number == 0 {
                lemma_scan_pressed_start(b0, b1, st, t1, vx, vy, 0, 0, (fuel - 1) as nat);
                let t2 = flood_scan(b1, t1, vx, vy, 0, 0, (fuel - 1) as nat);
                lemma_scan_pressed_start(b0, b1, st, t2, x, y, xx, yy + 1, fuel);
            } else {
                lemma_scan_pressed_start(b0, b1, st, t1, x, y, xx, yy + 1, fuel);
            }
        } else {
            lemma_scan_pressed_start(b0, b1, st, t, x, y, xx, yy + 1, fuel);
        }
    }
}

} // verus!
