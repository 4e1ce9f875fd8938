use game2048::board::{
    game_score_horizontal, game_score_vertical, make_game_score_table, make_move_down_table,
    make_move_left_table, make_move_right_table, make_move_up_table, move_down, move_left,
    move_right, move_up, transpose,
};
use game2048::counts::{count_distinct_tiles, count_empty};
use game2048::row::{combine, game_score_row, reverse_row, row_move_left};

#[test]
fn transpose_swaps_rows_and_columns() {
    assert_eq!(transpose(0xFEDC_BA98_7654_3210), 0xFB73_EA62_D951_C840);
    assert_eq!(transpose(0), 0);
}

#[test]
fn transpose_twice_is_identity() {
    for s in [0u64, 1, 0x1234_5678_9ABC_DEF0, 0xFEDC_BA98_7654_3210, u64::MAX] {
        assert_eq!(transpose(transpose(s)), s);
    }
}

#[test]
fn reverse_row_mirrors_cells() {
    assert_eq!(reverse_row(0x4321), 0x1234);
    assert_eq!(reverse_row(0x000F), 0xF000);
}

#[test]
fn row_move_left_slides_and_merges() {
    assert_eq!(row_move_left(0x0011), 0x0002);
    assert_eq!(row_move_left(0x1111), 0x0022);
    assert_eq!(row_move_left(0x2020), 0x0003);
    assert_eq!(row_move_left(0x0111), 0x0012);
    assert_eq!(row_move_left(0x1200), 0x0012);
    assert_eq!(row_move_left(0x2121), 0x2121);
    assert_eq!(row_move_left(0), 0);
}

#[test]
fn two_top_tiles_merge_into_a_top_tile() {
    assert_eq!(row_move_left(0x00FF), 0x000F);
    assert_eq!(game_score_row(0x00FF), 0x10000);
}

#[test]
fn combine_gives_row_and_points() {
    assert_eq!(combine(0x2020), (0x0003, 8));
    assert_eq!(combine(0x1111), (0x0022, 8));
    assert_eq!(combine(0x4321), (0x4321, 0));
}

#[test]
fn game_score_row_values() {
    assert_eq!(game_score_row(0x0011), 4);
    assert_eq!(game_score_row(0x3300), 16);
    assert_eq!(game_score_row(0x0000), 0);
}

#[test]
fn moves_in_four_directions() {
    assert_eq!(move_left(0x0011), 0x0002);
    assert_eq!(move_right(0x0011), 0x2000);
    let column = 0x0000_0000_0001_0001u64;
    assert_eq!(move_up(column), 0x0000_0000_0000_0002);
    assert_eq!(move_down(column), 0x0002_0000_0000_0000);
    assert_eq!(move_left(column), column);
    assert_eq!(move_right(column), 0x0000_0000_1000_1000);
}

#[test]
fn moves_act_on_every_row() {
    let s = 0x1100_0220_3030_0011u64;
    assert_eq!(move_left(s), 0x0002_0003_0004_0002);
    assert_eq!(move_right(s), 0x2000_3000_4000_2000);
}

#[test]
fn up_is_transposed_left() {
    for s in [0x1100_0220_3030_0011u64, 0x0123_4567_89AB_CDEF, 0x1111_2222_1111_0000] {
        assert_eq!(move_up(s), transpose(move_left(transpose(s))));
        assert_eq!(move_down(s), transpose(move_right(transpose(s))));
    }
}

#[test]
fn scores_of_moves() {
    assert_eq!(game_score_horizontal(0x0011), 4);
    assert_eq!(game_score_vertical(0x0011), 0);
    let column = 0x0000_0000_0001_0001u64;
    assert_eq!(game_score_vertical(column), 4);
    assert_eq!(game_score_horizontal(column), 0);
    assert_eq!(game_score_horizontal(0x1100_0220_3030_0011), 4 + 16 + 8 + 4);
}

#[test]
fn vertical_score_is_horizontal_score_of_transpose() {
    for s in [0x1100_0220_3030_0011u64, 0x0123_4567_89AB_CDEF, 0x1111_2222_1111_0000] {
        assert_eq!(game_score_vertical(s), game_score_horizontal(transpose(s)));
    }
}

#[test]
fn score_is_the_same_either_way() {
    // 2 2 2 0: moving left merges the first two, moving right the last two.
    let row = 0x0111u64;
    assert_eq!(game_score_row(row), game_score_row(reverse_row(row)));
    assert_eq!(row_move_left(row), 0x0012);
    assert_eq!(reverse_row(row_move_left(reverse_row(row))), 0x2100);
}

#[test]
fn count_empty_counts_zero_cells() {
    assert_eq!(count_empty(0x1), 15);
    assert_eq!(count_empty(0x1111), 12);
    assert_eq!(count_empty(0x1111_1111_1111_1111), 0);
    assert_eq!(count_empty(0x1111_1111_1111_1110), 1);
}

#[test]
fn count_empty_of_empty_board_is_zero() {
    assert_eq!(count_empty(0), 0);
}

#[test]
fn count_distinct_tiles_counts_ranks() {
    assert_eq!(count_distinct_tiles(0), 0);
    assert_eq!(count_distinct_tiles(0x1), 1);
    assert_eq!(count_distinct_tiles(0x4321), 4);
    assert_eq!(count_distinct_tiles(0x1111), 1);
    assert_eq!(count_distinct_tiles(0x10F0), 2);
    assert_eq!(count_distinct_tiles(0x0FED_CBA9_8765_4321), 15);
}

#[test]
fn tables_hold_the_row_moves() {
    let left = make_move_left_table();
    let right = make_move_right_table();
    let up = make_move_up_table();
    let down = make_move_down_table();
    let score = make_game_score_table();
    assert_eq!(left.len(), 65536);
    assert_eq!(left[0x0011], 0x0011 ^ 0x0002);
    assert_eq!(right[0x0011], 0x0011 ^ 0x2000);
    assert_eq!(up[0x0011], transpose(0x0011) ^ transpose(0x0002));
    assert_eq!(down[0x0011], transpose(0x0011) ^ transpose(0x2000));
    assert_eq!(score[0x0011], 4);
    for row in [0u64, 0x1111, 0x2020, 0xFFFF, 0x4321] {
        assert_eq!(left[row as usize], row ^ row_move_left(row));
        assert_eq!(score[row as usize], game_score_row(row));
    }
}

#[test]
fn move_tables_agree_with_moves() {
    let tables = game2048::board::MoveTables::new();
    for s in [
        0u64,
        0x0011,
        0x1100_0220_3030_0011,
        0x0123_4567_89AB_CDEF,
        0x1111_2222_1111_0000,
        0xFFFF_0000_FFFF_1111,
    ] {
        assert_eq!(tables.move_left(s), move_left(s));
        assert_eq!(tables.move_right(s), move_right(s));
        assert_eq!(tables.move_up(s), move_up(s));
        assert_eq!(tables.move_down(s), move_down(s));
    }
    assert_eq!(tables.move_up(0x0001_0001), 0x2);
}

#[test]
fn scores_are_multiples_of_four_and_bounded() {
    assert_eq!(game_score_row(0xFFFF), 0x20000);
    assert_eq!(game_score_horizontal(0xFFFF_FFFF_FFFF_FFFF), 0x80000);
    assert_eq!(game_score_vertical(0xFFFF_FFFF_FFFF_FFFF), 0x80000);
    for s in [0x1100_0220_3030_0011u64, 0x0123_4567_89AB_CDEF, 0x1111_2222_1111_0000] {
        assert_eq!(game_score_horizontal(s) % 4, 0);
        assert_eq!(game_score_vertical(s) % 4, 0);
    }
}

fn tile_total(s: u64) -> u64 {
    (0..16)
        .map(|k| (s >> (4 * k)) & 0xF)
        .map(|r| if r == 0 { 0 } else { 1u64 << r })
        .sum()
}

#[test]
fn left_move_keeps_total_value() {
    for s in [0x1100_0220_3030_0011u64, 0x0123_4567_89AB_CDE1, 0x1111_2222_1111_0000] {
        assert_eq!(tile_total(move_left(s)), tile_total(s));
    }
    // Two tiles of rank 15 merge into one of rank 15: the total drops.
    assert!(tile_total(move_left(0x00FF)) < tile_total(0x00FF));
}

#[test]
fn points_exactly_when_tiles_merge() {
    for s in [0x1100_0220_3030_0011u64, 0x0123_4567_89AB_CDEF, 0x2121, 0x0102, 0x1111_2222_1111_0000] {
        let merged = count_empty(move_left(s)) != count_empty(s);
        assert_eq!(game_score_horizontal(s) != 0, merged);
    }
}
