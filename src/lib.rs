//! Board representation and move layer of a shogi engine: pieces and
//! squares, packed hands, square sets, the move encoding, positions with
//! reversible moves and their hash keys, legality, move generation,
//! repetition, static exchange, the entering-king rule, mate in one, and
//! the SFEN, USI, CSA and Huffman-coded formats.
pub mod attack;
pub mod bitboard;
pub mod domove;
pub mod evasion;
pub mod hand;
pub mod hcp;
pub mod laws;
pub mod legality;
pub mod movegen;
pub mod moves;
pub mod pieces;
pub mod position;
pub mod rules;
pub mod see;
pub mod sfen;
mod text;
pub mod types;
pub mod zobrist;
