//! A calculator over one fixed-capacity binary register: bit-range addressed
//! arithmetic, a command parser, operator handlers and an undo history.
pub mod bits;
pub mod text;
pub mod radix;
pub mod number;
pub mod syntax;
pub mod operators;
pub mod history;
pub mod session;
