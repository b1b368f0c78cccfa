//! Motion commands for a CNC-style controller: a parser for the command
//! language and the discretizers that turn each motion into waypoints.
//!
//! All quantities are fixed-point integers counting millionths of a unit
//! (a coordinate, a radius) or of a degree (a stop angle).
pub mod geometry;
pub mod lexer;
pub mod parser;
pub mod linear;
pub mod circular;
pub mod trajectory;
