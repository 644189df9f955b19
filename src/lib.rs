//! Random passphrases from a configurable alphabet.
//!
//! `charsets` composes a sorted, duplicate-free alphabet from named character
//! groups and ad-hoc characters; `generator` draws passwords from an alphabet;
//! `strength` measures the size of the search space exactly.

pub mod charsets;
pub mod generator;
pub mod strength;

pub use charsets::{
    charset_alpha_lower, charset_alpha_upper, charset_delim, charset_mathops,
    charset_misc_special, charset_numeric, charset_prose, CharsetError, CharsetName, CharsetSpec,
};
pub use generator::{GeneratorError, PasswordGenerator, DEFAULT_LENGTH};
