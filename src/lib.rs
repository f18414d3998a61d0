//! Letter diamonds: for a letter, the alphabet's letters from `A` down to it and back
//! up, one row each, drawn as a shape that is symmetric both ways.
pub mod alphabet;
pub mod laws;
pub mod shape;
pub mod text;

pub use alphabet::{letter_position, letters_upto, to_upper, InvalidLetterError, UPPERS};
pub use shape::{diamond, upper_diamond};
