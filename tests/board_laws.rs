use krusty::board::Board;
use krusty::moves::{Move, MoveList};
use krusty::perft::perft;
use krusty::square::{Piece, PieceColor, PieceKind, Side, Square};
use krusty::transposition_table::{PerftTableEntry, TranspositionTable};

fn board_from(fen: &str) -> Board {
    let mut board = Board::new();
    board.parse_fen(fen).unwrap();
    board
}

fn snapshot(board: &Board) -> (Vec<Piece>, Side, u8, Square, usize, usize, u64) {
    (
        board.pieces().clone(),
        board.side_to_move(),
        board.castling_rights(),
        board.en_passant_square(),
        board.halfmove_clock(),
        board.history_length(),
        board.hash(),
    )
}

fn moves_of(board: &Board) -> Vec<Move> {
    let mut list = MoveList::new();
    board.generate_all_moves(&mut list);
    (0..list.length()).map(|i| list.get(i)).collect()
}

const KIWIPETE: &str = "r3k2r/p1ppqpb1/bn2pnp1/3PN3/1p2P3/2N2Q1p/PPPBBPPP/R3K2R w KQkq - 0 1";

#[test]
fn make_unmake_round_trip_every_move() {
    let mut board = board_from(KIWIPETE);
    let before = snapshot(&board);
    for mv in moves_of(&board) {
        board.make_move(mv).unwrap();
        board.unmake_move(mv).unwrap();
        assert_eq!(snapshot(&board), before);
    }
}

#[test]
fn incremental_hash_matches_fresh_parse() {
    let mut board = board_from("rnbqkbnr/pppppppp/8/8/8/8/PPPPPPPP/RNBQKBNR w KQkq - 0 1");
    let mv = board.find_matching_move(board.get_move_metadata("e2e4").unwrap()).unwrap();
    board.make_move(mv).unwrap();
    let fresh = board_from("rnbqkbnr/pppppppp/8/8/4P3/8/PPPP1PPP/RNBQKBNR b KQkq - 0 1");
    assert_eq!(board.hash(), fresh.hash());
}

#[test]
fn en_passant_hash_matches_fresh_parse() {
    let mut board = board_from("rnbqkbnr/pppppppp/8/8/4P3/8/PPPP1PPP/RNBQKBNR b KQkq - 0 2");
    let mv = board.find_matching_move(board.get_move_metadata("d7d5").unwrap()).unwrap();
    board.make_move(mv).unwrap();
    assert!(board.en_passant_square().is_none());
    let mut board = board_from("rnbqkbnr/pppppppp/8/4P3/8/8/PPPP1PPP/RNBQKBNR b KQkq - 0 2");
    let mv = board.find_matching_move(board.get_move_metadata("d7d5").unwrap()).unwrap();
    board.make_move(mv).unwrap();
    assert_eq!(board.en_passant_square(), Square::from_index(43));
    let fresh = board_from("rnbqkbnr/ppp1pppp/8/3pP3/8/8/PPPP1PPP/RNBQKBNR w KQkq d6 0 3");
    assert_eq!(board.hash(), fresh.hash());
}

#[test]
fn mailbox_agrees_with_bitboards_and_occupancy() {
    let board = board_from(KIWIPETE);
    for s in 0..64usize {
        let piece = board.get_piece(Square::from_index(s));
        let mut holders = 0;
        for color in [PieceColor::White, PieceColor::Black] {
            for kind in [PieceKind::Pawn, PieceKind::Knight, PieceKind::Bishop, PieceKind::Rook, PieceKind::Queen, PieceKind::King] {
                let p = Piece::new(color, kind);
                let bb = board.get_piece_bb(p).unwrap();
                if bb.is_occupied(Square::from_index(s)) {
                    holders += 1;
                    assert_eq!(piece, p);
                }
            }
        }
        assert_eq!(holders, if piece == Piece::empty() { 0 } else { 1 });
        let white = board.occupancy(Side::White).is_occupied(Square::from_index(s));
        let black = board.occupancy(Side::Black).is_occupied(Square::from_index(s));
        assert_eq!(white, piece.color == PieceColor::White);
        assert_eq!(black, piece.color == PieceColor::Black);
    }
}

#[test]
fn perft_is_deterministic() {
    let mut board = board_from(KIWIPETE);
    let mut table: TranspositionTable<PerftTableEntry> = TranspositionTable::new(8);
    let first = perft(&mut board, 3, &mut table).unwrap();
    let mut other: TranspositionTable<PerftTableEntry> = TranspositionTable::new(8);
    let second = perft(&mut board, 3, &mut other).unwrap();
    let third = perft(&mut board, 3, &mut table).unwrap();
    assert_eq!(first, second);
    assert_eq!(first, third);
}

#[test]
fn evaluation_of_mirrored_position() {
    let board = board_from("r1bqkb1r/pppp1ppp/2n2n2/4p3/2B1P3/5N2/PPPP1PPP/RNBQK2R w KQkq - 4 4");
    let mirrored = board_from("rnbqk2r/pppp1ppp/5n2/2b1p3/4P3/2N2N2/PPPP1PPP/R1BQKB1R b KQkq - 4 4");
    assert_eq!(board.evaluate(), mirrored.evaluate());
    let mirrored_white_to_move = board_from("rnbqk2r/pppp1ppp/5n2/2b1p3/4P3/2N2N2/PPPP1PPP/R1BQKB1R w KQkq - 4 4");
    assert_eq!(board.evaluate(), -mirrored_white_to_move.evaluate());
}

#[test]
fn insufficient_material_scores_zero() {
    assert_eq!(board_from("8/8/4k3/8/8/3K4/8/8 w - - 0 1").evaluate(), 0);
    assert_eq!(board_from("8/8/4k3/8/8/3KN3/8/8 w - - 0 1").evaluate(), 0);
    assert_ne!(board_from("8/8/4k3/8/8/3KR3/8/8 w - - 0 1").evaluate(), 0);
}

#[test]
fn start_position_is_balanced() {
    assert_eq!(board_from("rnbqkbnr/pppppppp/8/8/8/8/PPPPPPPP/RNBQKBNR w KQkq - 0 1").evaluate(), 0);
}

#[test]
fn malformed_fen_leaves_board_unchanged() {
    let mut board = board_from(KIWIPETE);
    let before = snapshot(&board);
    assert!(board.parse_fen("rnbqkbnr/pppppppp/8/8 w KQkq - 0 1").is_err());
    assert!(board.parse_fen("rnbqkbnr/pppppppp/8/8/8/8/PPPPPPPP/RNBQKBNR x KQkq - 0 1").is_err());
    assert!(board.parse_fen("rnbqkbnr/pppppppp/8/8/8/8/PPPPPPPP/RNBQKBNR w KQkq - z 1").is_err());
    assert!(board.parse_fen("rnbqkbnr/pppppppp/8/8/8/8/PPPPPPPP/RNBQKBNR w KQkq -").is_err());
    assert_eq!(snapshot(&board), before);
}
