//! Rules engine of a falling-block puzzle game: the playfield, the seven
//! pieces and their rotation, the bag randomizer, line clearing and the
//! game session that ties them together.

pub mod bag;
pub mod field;
pub mod game;
pub mod piece;
pub mod rules;

pub use bag::TetrominoIterator;
pub use field::TetrisField;
pub use game::Tetris;
pub use piece::{
    CellStatus, Direction, PhysicalTetromino, Pos2, SpinDirection, Tetromino,
    TETRIS_FIELD_DEFAULT_HEIGHT, TETRIS_FIELD_DEFAULT_WIDTH,
};
