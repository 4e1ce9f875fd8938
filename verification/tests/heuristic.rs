use game2048::row::reverse_row;
use game2048::board::transpose;
use game2048::heuristic::{make_score_table, row_heuristic, score_position};

#[test]
fn heuristic_of_empty_row() {
    assert_eq!(row_heuristic(0), 20_108_000);
}

#[test]
fn heuristic_of_pair_row() {
    assert_eq!(row_heuristic(0x0011), 20_191_800);
}

#[test]
fn heuristic_of_monotone_and_mixed_rows() {
    // 1 2 3 4: rises 255, no falls, no pair, sum of cubes 100.
    assert_eq!(row_heuristic(0x4321), (200_000 - 100 * 11) * 100);
    // 2 1 2 1: falls 15 + 15, rises 15, sum of cubes 18.
    assert_eq!(row_heuristic(0x1212), (-15 * 47 - 18 * 11 + 200_000) * 100);
}

#[test]
fn score_table_matches_rows() {
    let table = make_score_table();
    assert_eq!(table.len(), 65536);
    for row in [0u32, 0x11, 0x4321, 0x1212, 0xFFFF] {
        assert_eq!(table[row as usize], row_heuristic(row));
    }
}

#[test]
fn score_position_sums_rows_and_columns() {
    let table = make_score_table();
    assert_eq!(score_position(&table, 0), 8 * 20_108_000);
    let s = 0x0123_4567_89AB_CDEFu64;
    let t = transpose(s);
    let rows: i64 = (0..4).map(|k| row_heuristic(((s >> (16 * k)) & 0xFFFF) as u32)).sum();
    let cols: i64 = (0..4).map(|k| row_heuristic(((t >> (16 * k)) & 0xFFFF) as u32)).sum();
    assert_eq!(score_position(&table, s), rows + cols);
    assert_eq!(score_position(&table, s), score_position(&table, t));
}

#[test]
fn mirrored_rows_score_alike() {
    let table = make_score_table();
    for row in [0x0011u32, 0x4321, 0x1212, 0x0F31, 0x2200, 0xABCD] {
        let mirrored = reverse_row(row as u64) as u32;
        assert_eq!(row_heuristic(mirrored), row_heuristic(row));
        assert_eq!(table[mirrored as usize], table[row as usize]);
    }
}

#[test]
fn mirrored_board_scores_alike() {
    let table = make_score_table();
    for s in [0x0123_4567_89AB_CDEFu64, 0x1100_0220_3030_0011, 0x0F31_2200_ABCD_0001] {
        let mirror = (0..4).fold(0u64, |acc, k| acc | (reverse_row((s >> (16 * k)) & 0xFFFF) << (16 * k)));
        assert_eq!(score_position(&table, mirror), score_position(&table, s));
    }
}
