//! Text diagrams of dual in-line packages: a chip description is read from a
//! flat key/value document and drawn as lines of text, seen from either face
//! and turned to any of the four compass directions.

pub mod chip;
pub mod cli;
pub mod describe;
pub mod dip;
pub mod draw;
pub mod orient;
pub mod pin;
pub mod pins;
pub mod print;
pub mod table;
pub mod text;
