//! A chess position engine: an 8x8 board of pieces with two color-indexed
//! occupant indexes, fully-legal move generation (pseudo-legal rules
//! filtered by king safety), check and restricted checkmate detection, and
//! a textual notation codec. Every operation carries a contract that pins
//! its result over the board's mathematical model, and the codec's
//! round-trip and the move-reversal laws are proved in `laws`.
pub mod pieces;
pub mod board;
pub mod movegen;
pub mod fen;
pub mod laws;
