pub mod bus;
pub mod c64;
pub mod c64_trace;
pub mod cpu;
pub mod d64;
pub mod disk;
pub mod drive;
pub mod drive_trace;
pub mod gcr;
pub mod geometry;
pub mod iec;
pub mod image;
pub mod listing;
pub mod loader;
pub mod lookup;
pub mod petscii;
pub mod probe;
pub mod text;
pub mod via;
