//! From the low tier to the solver and back: the verification condition of
//! a program, and what the answers of the solver say of the program.

pub mod encode_wp;
pub mod expression;
pub mod labels;
pub mod meaning;
pub mod path;
pub mod search;
pub mod trace;
pub mod verification_result;
