use minesweeper::define::{LINE, MINE, SEED_RANGE};
use minesweeper::game::{
    contains_push, edit_clear_setting, fill_board, get_zero_button, push_button, setup_game,
    unpressed_buttons, update_button, ButtonInfo, ButtonInfos, ButtonPush, ButtonUpdate,
    ClearCount,
};

fn empty_board() -> (ClearCount, ButtonInfos) {
    (ClearCount { count: 0, all: 0 }, ButtonInfos { info: [[ButtonInfo::new(); LINE]; LINE] })
}

fn board_with_mines(mines: &[(usize, usize)]) -> (ClearCount, ButtonInfos) {
    let mut num = [[0u8; LINE]; LINE];
    for &(x, y) in mines {
        num[x][y] = MINE;
    }
    let (mut clear, mut btnis) = empty_board();
    fill_board(&num, &mut clear, &mut btnis);
    (clear, btnis)
}

fn neighbours_with_mines(btnis: &ButtonInfos, x: usize, y: usize) -> u8 {
    let mut n = 0;
    for dx in -1i32..=1 {
        for dy in -1i32..=1 {
            if dx == 0 && dy == 0 {
                continue;
            }
            let (i, j) = (x as i32 + dx, y as i32 + dy);
            if i >= 0 && j >= 0 && (i as usize) < LINE && (j as usize) < LINE
                && btnis.info[i as usize][j as usize].number == MINE
            {
                n += 1;
            }
        }
    }
    n
}

fn check_laid_out(clear: &ClearCount, btnis: &ButtonInfos) {
    let mut safe = 0;
    for x in 0..LINE {
        for y in 0..LINE {
            let c = btnis.info[x][y];
            assert_eq!((c.x, c.y), (x, y));
            assert!(c.is_ext);
            assert_eq!(c.tx, x as u32 * 49 + 75);
            assert_eq!(c.ty, y as u32 * 49 + 75);
            if c.number != MINE {
                safe += 1;
                assert_eq!(c.number, neighbours_with_mines(btnis, x, y));
            }
        }
    }
    assert_eq!(clear.count, 0);
    assert_eq!(clear.all, safe);
}

#[test]
fn button_constructors() {
    let b = ButtonInfo::new();
    assert_eq!(b, ButtonInfo { number: 0, x: 0, y: 0, tx: 0, ty: 0, is_ext: true });
    let s = ButtonInfo::set(3, 4, 5, 6, 7, false);
    assert_eq!(s, ButtonInfo { number: 3, x: 4, y: 5, tx: 6, ty: 7, is_ext: false });
    assert_eq!(ButtonPush::set(2, 9), ButtonPush { x: 2, y: 9 });
}

#[test]
fn fill_board_counts_mines_around() {
    let (clear, btnis) = board_with_mines(&[(0, 0), (2, 0), (7, 7)]);
    assert_eq!(btnis.info[0][0].number, MINE);
    assert_eq!(btnis.info[1][0].number, 2);
    assert_eq!(btnis.info[1][1].number, 2);
    assert_eq!(btnis.info[0][1].number, 1);
    assert_eq!(btnis.info[3][1].number, 1);
    assert_eq!(btnis.info[6][6].number, 1);
    assert_eq!(btnis.info[8][8].number, 1);
    assert_eq!(btnis.info[14][14].number, 0);
    assert_eq!(btnis.info[14][14].tx, 761);
    assert_eq!(btnis.info[0][14].ty, 761);
    assert_eq!(btnis.info[0][0].tx, 75);
    assert_eq!(clear.all, 222);
    check_laid_out(&clear, &btnis);
}

#[test]
fn fill_board_ignores_values_other_than_mine() {
    let mut num = [[5u8; LINE]; LINE];
    num[3][4] = MINE;
    num[3][5] = 0;
    let (mut clear, mut btnis) = empty_board();
    fill_board(&num, &mut clear, &mut btnis);
    assert_eq!(clear.all, 224);
    assert_eq!(btnis.info[3][5].number, 1);
    check_laid_out(&clear, &btnis);
}

#[test]
fn fill_board_all_mines() {
    let num = [[MINE; LINE]; LINE];
    let (mut clear, mut btnis) = empty_board();
    fill_board(&num, &mut clear, &mut btnis);
    assert_eq!(clear.all, 0);
    check_laid_out(&clear, &btnis);
}

#[test]
fn edit_clear_setting_lays_out_a_random_board() {
    let (mut clear, mut btnis) = empty_board();
    clear.count = 17;
    btnis.info[2][2].is_ext = false;
    edit_clear_setting(&mut clear, &mut btnis);
    check_laid_out(&clear, &btnis);
    // With a mine for every tenth value, a board without mines, or with
    // only mines, is practically impossible.
    assert!(clear.all < (LINE * LINE) as i32);
    assert!(clear.all > 0);
    assert!(SEED_RANGE > MINE);
}

#[test]
fn setup_game_starts_fresh() {
    let (mut clear, mut btnis) = board_with_mines(&[(1, 1)]);
    update_button(&mut btnis, &mut clear, 10, 10);
    setup_game(&mut clear, &mut btnis);
    check_laid_out(&clear, &btnis);
}

#[test]
fn contains_push_finds_positions() {
    let v = vec![ButtonPush::set(1, 2), ButtonPush::set(3, 4)];
    assert!(contains_push(&v, 3, 4));
    assert!(contains_push(&v, 1, 2));
    assert!(!contains_push(&v, 2, 1));
    assert!(!contains_push(&Vec::new(), 0, 0));
}

#[test]
fn push_button_presses_once() {
    let (mut clear, mut btnis) = board_with_mines(&[]);
    assert!(push_button(4, 5, &mut clear, &mut btnis));
    assert!(!btnis.info[4][5].is_ext);
    assert_eq!(clear.count, 1);
    assert!(!push_button(4, 5, &mut clear, &mut btnis));
    assert_eq!(clear.count, 1);
    assert_eq!(unpressed_buttons(&btnis), 224);
}

#[test]
fn get_zero_button_opens_an_empty_board() {
    let (_, btnis) = board_with_mines(&[]);
    let mut bps = Vec::new();
    get_zero_button(7, 7, &btnis, &mut bps);
    assert_eq!(bps.len(), LINE * LINE);
    for x in 0..LINE {
        for y in 0..LINE {
            assert!(contains_push(&bps, x, y));
        }
    }
}

#[test]
fn get_zero_button_at_the_corner() {
    let (_, btnis) = board_with_mines(&[(2, 0), (2, 1), (2, 2), (1, 2), (0, 2)]);
    let mut bps = Vec::new();
    get_zero_button(0, 0, &btnis, &mut bps);
    // (0, 0) is a 0 whose neighbours all touch a mine: they are opened and
    // the flood stops there.
    let mut got: Vec<(usize, usize)> = bps.iter().map(|p| (p.x, p.y)).collect();
    got.sort();
    assert_eq!(got, vec![(0, 1), (1, 0), (1, 1)]);
}

#[test]
fn get_zero_button_keeps_and_skips_what_bps_holds() {
    let (_, btnis) = board_with_mines(&[(5, 0), (5, 1), (5, 2), (5, 3), (5, 4), (5, 5), (5, 6),
        (5, 7), (5, 8), (5, 9), (5, 10), (5, 11), (5, 12), (5, 13), (5, 14)]);
    let mut bps = vec![ButtonPush::set(1, 1), ButtonPush::set(14, 14)];
    get_zero_button(0, 0, &btnis, &mut bps);
    assert_eq!(bps[0], ButtonPush::set(1, 1));
    assert_eq!(bps[1], ButtonPush::set(14, 14));
    // Columns 0 to 4 lie left of the wall of mines in column 5; (1, 1) was
    // already taken.
    assert_eq!(bps.len(), 2 + 5 * 15 - 1);
    for p in &bps[2..] {
        assert!(p.x <= 4);
        assert_ne!((p.x, p.y), (1, 1));
    }
}

#[test]
fn get_zero_button_stops_at_numbers_and_pressed_buttons() {
    let (_, mut btnis) = board_with_mines(&[(3, 3)]);
    btnis.info[0][1].is_ext = false;
    let mut bps = Vec::new();
    get_zero_button(0, 0, &btnis, &mut bps);
    assert!(!contains_push(&bps, 0, 1));
    assert!(!contains_push(&bps, 3, 3));
    // The ring of 1s around the mine is reached but not crossed.
    assert!(contains_push(&bps, 2, 2));
    assert!(contains_push(&bps, 4, 4));
    assert!(contains_push(&bps, 14, 14));
    assert_eq!(bps.len(), LINE * LINE - 2);
}

#[test]
fn update_button_on_a_mine_is_game_over() {
    let (mut clear, mut btnis) = board_with_mines(&[(6, 6)]);
    let before = btnis.info;
    let r = update_button(&mut btnis, &mut clear, 6, 6);
    assert!(matches!(r, ButtonUpdate::GameOver));
    assert_eq!(btnis.info, before);
    assert_eq!(clear.count, 0);
}

#[test]
fn update_button_on_a_number_presses_one() {
    let (mut clear, mut btnis) = board_with_mines(&[(6, 6)]);
    match update_button(&mut btnis, &mut clear, 5, 5) {
        ButtonUpdate::Pushed { revealed, ending } => {
            assert_eq!(revealed, vec![ButtonPush::set(5, 5)]);
            assert!(!ending);
        }
        ButtonUpdate::GameOver => panic!("no mine at (5, 5)"),
    }
    assert_eq!(clear.count, 1);
    assert_eq!(unpressed_buttons(&btnis), 224);
    // Pressing it again presses nothing.
    match update_button(&mut btnis, &mut clear, 5, 5) {
        ButtonUpdate::Pushed { revealed, ending } => {
            assert!(revealed.is_empty());
            assert!(!ending);
        }
        ButtonUpdate::GameOver => panic!("no mine at (5, 5)"),
    }
    assert_eq!(clear.count, 1);
}

#[test]
fn update_button_on_a_zero_floods_and_wins() {
    let (mut clear, mut btnis) = board_with_mines(&[(14, 14)]);
    match update_button(&mut btnis, &mut clear, 0, 0) {
        ButtonUpdate::Pushed { revealed, ending } => {
            assert_eq!(revealed[0], ButtonPush::set(0, 0));
            assert_eq!(revealed.len(), 224);
            assert!(!revealed.contains(&ButtonPush::set(14, 14)));
            assert!(ending);
        }
        ButtonUpdate::GameOver => panic!("no mine at (0, 0)"),
    }
    assert_eq!(clear.count, 224);
    assert_eq!(clear.all, 224);
    assert!(btnis.info[14][14].is_ext);
    assert_eq!(unpressed_buttons(&btnis), 1);
}

#[test]
fn update_button_opens_zero_region_and_its_border() {
    // A wall of mines in column 3 splits the board.
    let mines: Vec<(usize, usize)> = (0..LINE).map(|y| (3, y)).collect();
    let (mut clear, mut btnis) = board_with_mines(&mines);
    match update_button(&mut btnis, &mut clear, 0, 7) {
        ButtonUpdate::Pushed { revealed, ending } => {
            assert_eq!(revealed.len(), 3 * 15);
            assert!(!ending);
        }
        ButtonUpdate::GameOver => panic!("no mine at (0, 7)"),
    }
    for y in 0..LINE {
        assert!(!btnis.info[0][y].is_ext);
        assert!(!btnis.info[2][y].is_ext);
        assert!(btnis.info[3][y].is_ext);
        assert!(btnis.info[4][y].is_ext);
    }
    assert_eq!(clear.count, 45);
    assert_eq!(clear.all, 210);
    match update_button(&mut btnis, &mut clear, 10, 7) {
        ButtonUpdate::Pushed { revealed, ending } => {
            assert_eq!(revealed.len(), 11 * 15);
            assert!(ending);
        }
        ButtonUpdate::GameOver => panic!("no mine at (10, 7)"),
    }
    assert_eq!(clear.count, clear.all);
}

#[test]
fn every_pressed_zero_has_its_neighbours_pressed() {
    let (mut clear, mut btnis) = board_with_mines(&[(4, 4), (9, 2), (11, 12), (1, 13)]);
    update_button(&mut btnis, &mut clear, 7, 9);
    let mut pressed = 0;
    for x in 0..LINE {
        for y in 0..LINE {
            let c = btnis.info[x][y];
            if !c.is_ext {
                pressed += 1;
                assert_ne!(c.number, MINE);
            }
            if !c.is_ext && c.number == 0 {
                for i in x.saturating_sub(1)..=(x + 1).min(LINE - 1) {
                    for j in y.saturating_sub(1)..=(y + 1).min(LINE - 1) {
                        assert!(!btnis.info[i][j].is_ext);
                    }
                }
            }
        }
    }
    assert_eq!(clear.count, pressed);
    assert_eq!(unpressed_buttons(&btnis) as i32 + clear.count, (LINE * LINE) as i32);
}

#[test]
fn get_zero_button_from_just_outside_the_board() {
    // A start one column past the edge still looks at its neighbours in
    // column 14.
    let (_, btnis) = board_with_mines(&[(10, 0), (10, 1), (10, 2), (10, 3), (10, 4), (10, 5),
        (10, 6), (10, 7), (10, 8), (10, 9), (10, 10), (10, 11), (10, 12), (10, 13), (10, 14)]);
    let mut bps = Vec::new();
    get_zero_button(LINE, 7, &btnis, &mut bps);
    assert_eq!(bps.len(), 4 * 15);
    assert!(bps.iter().all(|p| p.x >= 11));
    let mut far = Vec::new();
    get_zero_button(LINE + 1, 7, &btnis, &mut far);
    assert!(far.is_empty());
}

fn plain_board() -> ButtonInfos {
    ButtonInfos { info: [[ButtonInfo::set(1, 0, 0, 0, 0, true); LINE]; LINE] }
}

fn positions(bps: &[ButtonPush]) -> Vec<(usize, usize)> {
    bps.iter().map(|p| (p.x, p.y)).collect()
}

#[test]
fn get_zero_button_scan_order() {
    let mut btnis = plain_board();
    btnis.info[4][4].number = MINE;
    btnis.info[6][6].is_ext = false;
    let mut bps = vec![ButtonPush::set(4, 5)];
    get_zero_button(5, 5, &btnis, &mut bps);
    assert_eq!(positions(&bps), vec![(4, 5), (4, 6), (5, 4), (5, 6), (6, 4), (6, 5)]);
}

#[test]
fn get_zero_button_depth_first_order() {
    let mut btnis = plain_board();
    btnis.info[5][5].number = 0;
    btnis.info[5][5].is_ext = false;
    btnis.info[6][5].number = 0;
    let before = btnis.info;
    let mut bps = Vec::new();
    get_zero_button(5, 5, &btnis, &mut bps);
    assert_eq!(
        positions(&bps),
        vec![(4, 4), (4, 5), (4, 6), (5, 4), (5, 6), (6, 4), (6, 5), (6, 6), (7, 4), (7, 5), (7, 6)]
    );
    assert_eq!(btnis.info, before);
}

#[test]
fn update_button_reveals_in_scan_order() {
    let mut btnis = plain_board();
    btnis.info[5][5].number = 0;
    btnis.info[6][5].number = 0;
    let mut clear = ClearCount { count: 0, all: 225 };
    match update_button(&mut btnis, &mut clear, 5, 5) {
        ButtonUpdate::Pushed { revealed, ending } => {
            assert_eq!(
                positions(&revealed),
                vec![(5, 5), (4, 4), (4, 5), (4, 6), (5, 4), (5, 6), (6, 4), (6, 5), (6, 6),
                    (7, 4), (7, 5), (7, 6)]
            );
            assert!(!ending);
        }
        ButtonUpdate::GameOver => panic!("no mine at (5, 5)"),
    }
    assert_eq!(clear.count, 12);
}

#[test]
fn push_button_off_the_board_does_nothing() {
    let (mut clear, mut btnis) = board_with_mines(&[]);
    let before = btnis.info;
    assert!(!push_button(LINE, 0, &mut clear, &mut btnis));
    assert!(!push_button(3, LINE + 7, &mut clear, &mut btnis));
    assert!(!push_button(usize::MAX, usize::MAX, &mut clear, &mut btnis));
    assert_eq!(btnis.info, before);
    assert_eq!(clear, ClearCount { count: 0, all: 225 });
}

#[test]
fn layout_does_not_depend_on_the_previous_board() {
    let mut num = [[3u8; LINE]; LINE];
    num[2][9] = MINE;
    num[13][0] = MINE;
    let (mut c1, mut b1) = empty_board();
    fill_board(&num, &mut c1, &mut b1);
    let (mut c2, mut b2) = board_with_mines(&[(7, 7), (1, 1)]);
    update_button(&mut b2, &mut c2, 14, 14);
    c2.count = 99;
    fill_board(&num, &mut c2, &mut b2);
    assert_eq!(b1.info, b2.info);
    assert_eq!(c1, c2);
}

#[test]
fn adding_a_mine_changes_its_neighbours() {
    let mut g = [[0u8; LINE]; LINE];
    g[0][0] = MINE;
    let mut h = g;
    h[1][1] = MINE;
    let (mut cg, mut bg) = empty_board();
    fill_board(&g, &mut cg, &mut bg);
    let (mut ch, mut bh) = empty_board();
    fill_board(&h, &mut ch, &mut bh);
    assert_eq!(ch.all, cg.all - 1);
    assert_eq!(bh.info[1][1].number, MINE);
    for x in 0..LINE {
        for y in 0..LINE {
            let (a, b) = (bg.info[x][y], bh.info[x][y]);
            assert_eq!((a.x, a.y, a.tx, a.ty, a.is_ext), (b.x, b.y, b.tx, b.ty, b.is_ext));
            if (x, y) == (1, 1) {
                continue;
            }
            if a.number == MINE {
                assert_eq!(b, a);
            } else {
                let near = x <= 2 && y <= 2;
                assert_eq!(b.number, a.number + if near { 1 } else { 0 });
            }
        }
    }
}
