//! A chess engine core: bitboard position representation, magic-bitboard move
//! generation, incremental Zobrist hashing, make/unmake, evaluation, a
//! transposition table and an alpha-beta searcher.

pub mod bitboard;
pub mod square;
pub mod moves;
pub mod magics;
pub mod prng;
pub mod zobrist_hash;
pub mod attacks;
pub mod board;
pub mod move_generator;
pub mod make_move;
pub mod fen;
pub mod evaluate;
pub mod transposition_table;
pub mod perft;
pub mod time_management;
pub mod search;
pub mod uci;
pub mod symmetry;
pub mod generate_magics;
