use krusty::attacks::{king_attacks, knight_attacks, pawn_attacks, rook_directions, MoveGenerator};
use krusty::bitboard::Bitboard;
use krusty::board::{Board, CastlingKind};
use krusty::generate_magics::{bit_count, check_magic, MagicCandidate};
use krusty::magics::rook_magic;
use krusty::moves::{Move, MoveFlag, MoveKind, MoveList};
use krusty::prng::Prng;
use krusty::search::SearchDepth;
use krusty::square::{File, ParseError, Piece, PieceColor, PieceKind, Rank, Side, Square};
use krusty::time_management::{SearchDuration, SearchTimer};
use krusty::transposition_table::{SearchEntryFlag, SearchTableEntry, TableEntry, TranspositionTable};
use krusty::uci::{parse_go, parse_position, UciError};
use krusty::zobrist_hash::{ZobristHasher, ZobristKey};

#[test]
fn square_and_rank_parsing() {
    assert_eq!(Square::new(Rank::Fourth, File::E).index(), 28);
    assert_eq!(Rank::try_from_char('8'), Ok(Rank::Eighth));
    assert_eq!(Rank::try_from_char('9'), Err(ParseError::InvalidRank));
    assert_eq!(File::try_from_char('h'), Ok(File::H));
    assert_eq!(File::try_from_char('H'), Err(ParseError::InvalidFile));
    assert_eq!(Square::from_index(63).rank(), Ok(Rank::Eighth));
    assert_eq!(Square::none().rank(), Err(ParseError::InvalidSquare));
    assert_eq!(Square::from_index(12).distance_between(Square::from_index(28)), 16);
    assert_eq!(Piece::try_from_char('q'), Ok(Piece::new(PieceColor::Black, PieceKind::Queen)));
    assert_eq!(Piece::try_from_char('x'), Err(ParseError::InvalidPiece));
}

#[test]
fn bitboard_bit_operations() {
    let mut bb = Bitboard(0);
    bb.set_bit(Square::from_index(9));
    bb.set_bit(Square::from_index(40));
    assert!(bb.is_occupied(Square::from_index(40)));
    assert_eq!(bb.get_lsb(), 1 << 9);
    assert_eq!(bb.pop_bit(), Square::from_index(9));
    assert_eq!(bb.0, 1 << 40);
    bb.clear_bit(Square::from_index(40));
    assert_eq!(bb.0, 0);
}

#[test]
fn move_packing() {
    let mut mv = Move::new(Square::from_index(12), Square::from_index(28), MoveKind::Quiet, MoveFlag::NoFlag);
    assert_eq!(mv.from_square(), Square::from_index(12));
    assert_eq!(mv.to_square(), Square::from_index(28));
    assert_eq!(mv.kind(), MoveKind::Quiet);
    mv.set_score(1234);
    assert_eq!(mv.score(), 1234);
    assert_eq!(mv, Move::new(Square::from_index(12), Square::from_index(28), MoveKind::Quiet, MoveFlag::NoFlag));
    let promo = Move::new(Square::from_index(54), Square::from_index(62), MoveKind::Promotion, MoveFlag::QueenPromotion);
    assert_eq!(promo.to_uci_chars().into_iter().collect::<String>(), "g7g8q");
    assert!(Move::null().is_null());
}

#[test]
fn move_list_ordering() {
    let mut list = MoveList::new();
    for (i, score) in [(8usize, 5u32), (9, 40), (10, 7)] {
        let mut mv = Move::new(Square::from_index(i), Square::from_index(i + 8), MoveKind::Quiet, MoveFlag::NoFlag);
        mv.set_score(score);
        list.push(mv);
    }
    assert_eq!(list.pick_ordered_move(0).score(), 40);
    assert_eq!(list.pick_ordered_move(1).score(), 7);
    assert_eq!(list.pick_ordered_move(2).score(), 5);
}

#[test]
fn leaper_attack_tables() {
    assert_eq!(bit_count(knight_attacks(0).0), 2);
    assert_eq!(bit_count(knight_attacks(27).0), 8);
    assert_eq!(bit_count(king_attacks(0).0), 3);
    assert_eq!(bit_count(king_attacks(27).0), 8);
    assert_eq!(pawn_attacks(Side::White, 8).0, 1 << 17);
    assert_eq!(pawn_attacks(Side::Black, 55).0, 1 << 46);
}

#[test]
fn sliding_lookup_matches_ray_walk() {
    let generator = MoveGenerator::new();
    let occupancy: u64 = (1 << 3) | (1 << 24) | (1 << 60);
    let attacks = generator.rook_attacks_from(0, occupancy).0;
    let expected: u64 = (1 << 1) | (1 << 2) | (1 << 3) | (1 << 8) | (1 << 16) | (1 << 24);
    assert_eq!(attacks, expected);
}

#[test]
fn shipped_rook_magic_checks_out() {
    let mask = krusty::attacks::generate_sliding_blocker_mask(Square::from_index(0), rook_directions());
    let mut candidate = MagicCandidate::new(mask);
    candidate.magic = rook_magic(0).magic;
    assert_eq!(candidate.bits_in_mask, 12);
    assert_eq!(check_magic(&candidate, Square::from_index(0), rook_directions()), Some(4096));
}

#[test]
fn prng_is_seeded() {
    let mut a = Prng::new(123);
    let mut b = Prng::new(123);
    assert_eq!(a.random_u64(), b.random_u64());
    assert_ne!(a.random_u64(), 0);
}

#[test]
fn zobrist_keys_differ() {
    let hasher = ZobristHasher::new();
    let a = hasher.get_key_part(ZobristKey::Piece(Piece::new(PieceColor::White, PieceKind::Pawn), Square::from_index(8)));
    let b = hasher.get_key_part(ZobristKey::Piece(Piece::new(PieceColor::White, PieceKind::Pawn), Square::from_index(9)));
    assert_ne!(a, b);
    assert_eq!(ZobristHasher::ep_slot(Square::from_index(20)), 4);
    assert_eq!(ZobristHasher::ep_slot(Square::from_index(28)), 8);
}

#[test]
fn castling_rights_from_fen() {
    let mut board = Board::new();
    board.parse_fen("r3k2r/8/8/8/8/8/8/R3K2R w Kq - 0 1").unwrap();
    assert!(board.can_castle(CastlingKind::WhiteKing));
    assert!(!board.can_castle(CastlingKind::WhiteQueen));
    assert!(!board.can_castle(CastlingKind::BlackKing));
    assert!(board.can_castle(CastlingKind::BlackQueen));
}

#[test]
fn castling_rights_lost_on_rook_capture() {
    let mut board = Board::new();
    board.parse_fen("r3k2r/8/8/8/8/8/8/R3K2R w KQkq - 0 1").unwrap();
    board.apply_move_text("a1a8").unwrap();
    assert_eq!(board.castling_rights(), 1 | 4);
}

#[test]
fn transposition_table_mate_scores() {
    let entry = SearchTableEntry::new(42, 3, 99_990, 4, SearchEntryFlag::Exact, Move::null());
    assert_eq!(entry.score, 99_994);
    assert_eq!(entry.get(42, 3, 2, -100, 100).0, Some(99_992));
    assert_eq!(entry.get(42, 4, 2, -100, 100).0, None);
    assert_eq!(entry.get(41, 1, 2, -100, 100).0, None);
    let beta = SearchTableEntry::new(7, 5, 300, 0, SearchEntryFlag::Beta, Move::null());
    assert_eq!(beta.get(7, 5, 0, 100, 200).0, Some(200));
    assert_eq!(beta.get(7, 5, 0, 100, 400).0, None);
    let mut table: TranspositionTable<SearchTableEntry> = TranspositionTable::new(1);
    table.store(entry);
    assert_eq!(table.probe(42).hash(), 42);
}

#[test]
fn go_arguments() {
    let p = parse_go("depth 6 wtime 60000 btime 1000 winc 500 movestogo 20", Side::White).unwrap();
    assert_eq!(p.depth, SearchDepth::Finite(6));
    assert_eq!(p.time_remaining, Some(60000));
    assert_eq!(p.increment, 500);
    assert_eq!(p.moves_to_go, Some(20));
    let q = parse_go("wtime 60000 btime 1000 binc 7", Side::Black).unwrap();
    assert_eq!(q.time_remaining, Some(1000));
    assert_eq!(q.increment, 7);
    assert_eq!(q.depth, SearchDepth::Infinite);
    assert_eq!(parse_go("depth", Side::White), Err(UciError::MissingDepth));
    assert_eq!(parse_go("depth x", Side::White), Err(UciError::InvalidDepth));
}

#[test]
fn position_arguments() {
    let args = "fen 8/8/8/8/8/8/8/K6k w - - 0 1 moves a1a2 h1h2";
    let p = parse_position(args).unwrap();
    let (s, e) = p.fen.unwrap();
    assert_eq!(&args[s..e], "8/8/8/8/8/8/8/K6k w - - 0 1");
    let moves: Vec<&str> = p.moves.iter().map(|(s, e)| &args[*s..*e]).collect();
    assert_eq!(moves, vec!["a1a2", "h1h2"]);
    let start = parse_position("startpos").unwrap();
    assert!(start.fen.is_none());
    assert!(parse_position("nonsense").is_err());
}

#[test]
fn timer_budget() {
    let mut timer = SearchTimer::new();
    timer.initialize(Some(30_000), 100, None);
    assert_eq!(timer.allowed_duration, SearchDuration::Finite(1050));
    timer.initialize(Some(10), 0, Some(5));
    assert_eq!(timer.allowed_duration, SearchDuration::Finite(0));
    timer.initialize(Some(59), 100, None);
    assert_eq!(timer.allowed_duration, SearchDuration::Finite(51));
    timer.initialize(None, 0, None);
    assert_eq!(timer.allowed_duration, SearchDuration::Infinite);
    timer.start();
    assert!(!timer.is_stopped());
    timer.check_elapsed(5);
    assert!(!timer.is_stopped());
    timer.initialize(Some(3000), 0, Some(1));
    timer.check_elapsed(2950);
    assert!(timer.is_stopped());
}
