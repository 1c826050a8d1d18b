//! Conversion of identifiers between naming conventions (`HelloWorld`,
//! `hello_world`, `HTTP-Request`), and checks whether an identifier already
//! conforms to one. Every conversion rests on one splitter that breaks an
//! identifier into its atomic words at separators and at case changes.
pub mod chars;
pub mod split;
pub mod words;
pub mod styles;
pub mod naming;
pub mod laws;

pub use naming::snake_to_pascal;
pub use split::{split, InvalidCharacter, SplitCase, NO_CASE};
pub use styles::{
    is_strict_camel_case, is_strict_case, is_strict_constant_case, is_strict_flat_case,
    is_strict_kebab_case, is_strict_pascal_case, is_strict_snake_case, join_cased, join_styled,
    to_camel_case, to_case, to_constant_case, to_flat_case, to_kebab_case, to_pascal_case,
    to_snake_case, CaseStyle,
};
pub use words::{capitalize, case_word, decapitalize, WordCasing};
