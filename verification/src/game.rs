pub mod board;
pub mod curio;
pub mod hall;
pub mod player;
pub mod room;
