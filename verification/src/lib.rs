//! Reconstructs a chess position from a live broadcast page's markup,
//! encodes it into the standard board-notation string, and composites an
//! annotated raster image of the board.
//!
//! The library is organised leaf-first:
//!
//! - [`coords`] maps percentage positions to grid cells and cells to pixel
//!   rectangles, and algebraic square names to cells;
//! - [`board`] holds the square codes, the 8x8 board, the perspective flag
//!   and the point-reflection transform;
//! - [`parse`] holds the character-level helpers the attribute parsers
//!   build on;
//! - [`extract`] turns a page snapshot into a board, a perspective and the
//!   highlighted squares;
//! - [`fen`] serializes a board into the notation string and decodes the
//!   piece-placement field back;
//! - [`engine`] reads the evaluation engine's best-move reply;
//! - [`render`] composites the annotated board image.
//!
//! Fetching pages, calling the evaluation engine and reading or writing
//! files stay outside the library.

pub mod board;
pub mod coords;
pub mod engine;
pub mod error;
pub mod extract;
pub mod fen;
pub mod parse;
pub mod render;
