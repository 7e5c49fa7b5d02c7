//! Password policy checking and random password generation.

pub mod text;

pub mod check;

pub use check::{check, PasswordPolicy, Requirement};
pub mod generate;
mod random;

pub use generate::{generate, Error, Options};
