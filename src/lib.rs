//! A multiplayer word game engine: rooms host sessions, sessions run timed
//! rounds, and rounds adjudicate submitted words against random criteria.
pub mod text;
pub mod words;
pub mod criteria;
pub mod round;
pub mod game;
pub mod discord;
