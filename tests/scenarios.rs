use krusty::board::Board;
use krusty::moves::{Move, MoveFlag, MoveKind, MoveList};
use krusty::search::{score_report, ScoreReport, Search, INFINITY};
use krusty::square::{Piece, PieceColor, PieceKind, Side, Square};
use krusty::transposition_table::CHECKMATE_THRESHOLD;

fn board_from(fen: &str) -> Board {
    let mut board = Board::new();
    board.parse_fen(fen).unwrap();
    board
}

fn play(board: &mut Board, text: &str) -> Move {
    let metadata = board.get_move_metadata(text).unwrap();
    let mv = board.find_matching_move(metadata).unwrap();
    assert!(board.make_move(mv).unwrap());
    mv
}

fn all_moves(board: &Board) -> Vec<Move> {
    let mut list = MoveList::new();
    board.generate_all_moves(&mut list);
    (0..list.length()).map(|i| list.get(i)).collect()
}

fn sq(i: usize) -> Square {
    Square::from_index(i)
}

#[test]
fn en_passant_setup_capture() {
    let mut board = board_from("rnbqkbnr/pppp1ppp/8/4p3/3P4/8/PPP1PPPP/RNBQKBNR w KQkq e6 0 2");
    play(&mut board, "d4e5");
    assert_eq!(board.get_piece(sq(36)), Piece::new(PieceColor::White, PieceKind::Pawn));
    assert_eq!(board.get_piece(sq(27)), Piece::empty());
    assert!(board.en_passant_square().is_none());
    assert_eq!(board.side_to_move(), Side::Black);
}

#[test]
fn promotion_to_queen() {
    let mut board = board_from("4k3/6P1/8/8/8/8/8/4K3 w - - 0 1");
    let promotions: Vec<Move> = all_moves(&board)
        .into_iter()
        .filter(|m| m.kind() == MoveKind::Promotion)
        .collect();
    assert_eq!(promotions.len(), 4);
    let flags: Vec<MoveFlag> = promotions.iter().map(|m| m.flag()).collect();
    assert!(flags.contains(&MoveFlag::KnightPromotion));
    assert!(flags.contains(&MoveFlag::BishopPromotion));
    assert!(flags.contains(&MoveFlag::RookPromotion));
    assert!(flags.contains(&MoveFlag::QueenPromotion));
    play(&mut board, "g7g8q");
    assert_eq!(board.get_piece(sq(62)), Piece::new(PieceColor::White, PieceKind::Queen));
    assert_eq!(board.get_piece(sq(54)), Piece::empty());
}

#[test]
fn mate_detection() {
    let mut search = Search::new();
    search.load_fen("6k1/5ppp/8/8/8/8/5PPP/R5K1 w - - 0 1").unwrap();
    search.max_depth = 5;
    search.timer.initialize(None, 0, None);
    search.timer.start();
    let (best, iterations) = search.search_position().unwrap();
    let last = iterations.last().unwrap();
    assert_eq!(last.depth, 5);
    assert!(last.score.abs() > CHECKMATE_THRESHOLD);
    assert_eq!(score_report(last.score), ScoreReport::Mate(1));
    assert_eq!(best.from_square(), sq(0));
    assert_eq!(best.to_square(), sq(56));
}

#[test]
fn castling_both_sides_available() {
    let board = board_from("r3k2r/8/8/8/8/8/8/R3K2R w KQkq - 0 1");
    let castles: Vec<Move> = all_moves(&board).into_iter().filter(|m| m.kind() == MoveKind::Castle).collect();
    assert_eq!(castles.len(), 2);
    assert!(castles.iter().any(|m| m.from_square() == sq(4) && m.to_square() == sq(6)));
    assert!(castles.iter().any(|m| m.from_square() == sq(4) && m.to_square() == sq(2)));
}

#[test]
fn castling_out_of_check_refused() {
    let board = board_from("r3k2r/8/8/8/4r3/8/8/R3K2R w KQkq - 0 1");
    assert!(board.is_in_check(Side::White));
    let castles = all_moves(&board).into_iter().filter(|m| m.kind() == MoveKind::Castle).count();
    assert_eq!(castles, 0);
}

#[test]
fn score_report_values() {
    assert_eq!(score_report(INFINITY - 1), ScoreReport::Mate(1));
    assert_eq!(score_report(INFINITY - 3), ScoreReport::Mate(2));
    assert_eq!(score_report(-(INFINITY - 2)), ScoreReport::Mate(-1));
    assert_eq!(score_report(35), ScoreReport::Centipawns(35));
}
