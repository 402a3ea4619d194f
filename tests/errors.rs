use krusty::board::{Board, BoardError};
use krusty::make_move::MoveError;
use krusty::moves::{Move, MoveFlag, MoveKind};
use krusty::square::{ParseError, Piece, PieceColor, PieceKind, Square};
use krusty::uci::{parse_position, UciError};

fn fen_error(fen: &str) -> ParseError {
    let mut board = Board::new();
    board.parse_fen(fen).unwrap_err()
}

#[test]
fn fen_errors() {
    assert_eq!(fen_error("4k3/8/8/8/8/8/8/4K3 w - - 0"), ParseError::FieldCount);
    assert_eq!(fen_error("4k3/8/8/8/8/8/4K3 w - - 0 1"), ParseError::RankCount);
    assert_eq!(fen_error("4k3/8/8/8/8/8/8/3K3x w - - 0 1"), ParseError::PlacementCharacter);
    assert_eq!(fen_error("4k3/8/8/8/8/8/8/8k w - - 0 1"), ParseError::RankOverflow);
    assert_eq!(fen_error("4k3/8/8/8/8/8/8/4K2 w - - 0 1"), ParseError::RankLength);
    assert_eq!(fen_error("4k3/8/8/8/8/8/8/4K3 x - - 0 1"), ParseError::InvalidSide);
    assert_eq!(fen_error("4k3/8/8/8/8/8/8/4K3 wx - - 0 1"), ParseError::InvalidSide);
    assert_eq!(fen_error("4k3/8/8/8/8/8/8/4K3 w KX - 0 1"), ParseError::InvalidCastling);
    assert_eq!(fen_error("4k3/8/8/8/8/8/8/4K3 w K-K - 0 1"), ParseError::InvalidCastling);
    assert_eq!(fen_error("4k3/8/8/8/8/8/8/4K3 w KK - 0 1"), ParseError::InvalidCastling);
    assert_eq!(fen_error("4k3/8/8/8/8/8/8/4K3 w - e9 0 1"), ParseError::InvalidEnPassant);
    assert_eq!(fen_error("4k3/8/8/8/8/8/8/4K3 w - e3x 0 1"), ParseError::InvalidEnPassant);
    assert_eq!(fen_error("4k3/8/8/8/8/8/8/4K3 w - - -3 1"), ParseError::InvalidClock);
    assert_eq!(fen_error("4k3/8/8/8/8/8/8/4K3 w - - 0 x"), ParseError::InvalidFullmove);
    assert_eq!(fen_error("8/8/8/8/8/8/8/4K3 w - - 0 1"), ParseError::KingCount);
    assert_eq!(fen_error("4k3/8/8/8/8/8/8/3KK3 w - - 0 1"), ParseError::KingCount);
}

#[test]
fn move_text_errors() {
    let mut board = Board::new();
    board.parse_fen("4k3/8/8/8/8/8/4r3/4K3 w - - 0 1").unwrap();
    assert_eq!(board.get_move_metadata("e1"), Err(ParseError::MoveTooShort));
    assert_eq!(board.get_move_metadata("z1e2"), Err(ParseError::InvalidFile));
    assert_eq!(board.get_move_metadata("e9e2"), Err(ParseError::InvalidRank));
    assert_eq!(board.get_move_metadata("e1e2x"), Err(ParseError::InvalidPiece));
    assert_eq!(board.apply_move_text("e1e3"), Err(MoveError::NoSuchMove));
    assert_eq!(board.apply_move_text("e1f2"), Err(MoveError::LeavesKingInCheck));
    assert_eq!(board.apply_move_text("e1"), Err(MoveError::Unreadable(ParseError::MoveTooShort)));
    assert!(board.apply_move_text("e1e2").is_ok());
}

#[test]
fn board_errors() {
    let mut board = Board::new();
    assert_eq!(board.remove_piece(Square::from_index(10)), Err(BoardError::EmptySquare));
    assert_eq!(board.add_piece(Piece::empty(), Square::from_index(10)), Err(BoardError::InvalidPiece));
    let king = Piece::new(PieceColor::White, PieceKind::King);
    assert_eq!(board.add_piece(king, Square::from_index(10)), Ok(()));
    assert_eq!(board.add_piece(king, Square::from_index(10)), Err(BoardError::OccupiedSquare));
    assert_eq!(board.get_piece_bb(Piece::empty()), Err(BoardError::InvalidPiece));
    assert_eq!(board.unmake_move(Move::null()), Err(BoardError::EmptyHistory));
    assert_eq!(board.unmake_null_move(), Err(BoardError::EmptyHistory));
}

#[test]
fn make_move_errors() {
    let mut board = Board::new();
    board.parse_fen("4k3/8/8/8/8/8/8/4K2R w K - 0 1").unwrap();
    let castle_to_nowhere = Move::new(Square::from_index(4), Square::from_index(5), MoveKind::Castle, MoveFlag::NoFlag);
    assert_eq!(board.make_move(castle_to_nowhere), Err(BoardError::IllegalCastle));
    let mut board = Board::new();
    board.parse_fen("4k3/4P3/8/8/8/8/8/4K3 w - - 0 1").unwrap();
    let no_piece = Move::new(Square::from_index(52), Square::from_index(60), MoveKind::Promotion, MoveFlag::NoFlag);
    assert_eq!(board.make_move(no_piece), Err(BoardError::MissingPromotion));
}

#[test]
fn null_move_round_trip() {
    let mut board = Board::new();
    board.parse_fen("rnbqkbnr/ppp1pppp/8/3pP3/8/8/PPPP1PPP/RNBQKBNR w KQkq d6 0 3").unwrap();
    let hash = board.hash();
    board.make_null_move();
    assert!(board.en_passant_square().is_none());
    assert_ne!(board.hash(), hash);
    board.unmake_null_move().unwrap();
    assert_eq!(board.hash(), hash);
    assert_eq!(board.en_passant_square(), Square::from_index(43));
}

#[test]
fn position_errors() {
    assert!(matches!(parse_position(""), Err(UciError::InvalidPosition)));
    assert!(matches!(parse_position("fen moves e2e4"), Err(UciError::InvalidPosition)));
}
