use krusty::board::Board;
use krusty::perft::perft;
use krusty::transposition_table::{PerftTableEntry, TranspositionTable};

fn count(fen: &str, depth: u8) -> u64 {
    let mut board = Board::new();
    board.parse_fen(fen).unwrap();
    let mut table: TranspositionTable<PerftTableEntry> = TranspositionTable::new(16);
    perft(&mut board, depth, &mut table).unwrap()
}

const START: &str = "rnbqkbnr/pppppppp/8/8/8/8/PPPPPPPP/RNBQKBNR w KQkq - 0 1";
const KIWIPETE: &str = "r3k2r/p1ppqpb1/bn2pnp1/3PN3/1p2P3/2N2Q1p/PPPBBPPP/R3K2R w KQkq - 0 1";

#[test]
fn start_position_perft_1() {
    assert_eq!(count(START, 1), 20);
}

#[test]
fn start_position_perft_2() {
    assert_eq!(count(START, 2), 400);
}

#[test]
fn start_position_perft_3() {
    assert_eq!(count(START, 3), 8902);
}

#[test]
fn start_position_perft_4() {
    assert_eq!(count(START, 4), 197281);
}

#[test]
fn kiwipete_perft_2() {
    assert_eq!(count(KIWIPETE, 2), 2039);
}

#[test]
fn kiwipete_perft_3() {
    assert_eq!(count(KIWIPETE, 3), 97862);
}

#[test]
fn start_position_perft_5() {
    assert_eq!(count(START, 5), 4865609);
}

#[test]
fn kiwipete_perft_4() {
    assert_eq!(count(KIWIPETE, 4), 4085603);
}
