//! A chess position engine.
//!
//! A position is a set of twelve bitboards, one per piece, with the side to
//! move, the castling rights, the en-passant square, two move counters and
//! two hashes. The library builds the attack tables of all pieces, generates
//! the moves that a side may try, carries moves out, tells legal moves from
//! illegal ones, and says how a game stands. Positions are read from and
//! written as text, moves are written in coordinate and in algebraic
//! notation, and games as PGN.
//!
//! Every function states what it computes over a mathematical model of the
//! board: the man on each of the 64 squares. The rules of the game are
//! written down once, in `rules`, and the move generator and the move
//! executor are proved against them.
pub mod attack;
pub mod bb;
pub mod board;
pub mod consts;
pub mod fen;
pub mod game;
pub mod geometry;
pub mod magic_consts;
pub mod magics;
pub mod manager;
pub mod move_gen;
pub mod moves;
pub mod pgn;
pub mod rays;
pub mod round_trip;
pub mod rules;
pub mod text;
pub mod uci;
pub mod zobrist;
