//! A turn-based tile map game engine: procedurally generated chunks of world
//! crossed by a path, and the turn/phase state machine that moves the caravan
//! and the enemies and resolves tower shots.
pub mod coords;
pub mod tile;
pub mod chunk;
pub mod draw;
pub mod map;
pub mod game;
pub mod font;
