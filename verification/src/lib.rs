//! Parser combinators over `&str`, with the regression properties that
//! exercise `multispace0`, `float` and `count`.

pub mod text;
pub mod fmt;
pub mod error;
pub mod bytes;
pub mod character;
pub mod combinator;
pub mod multi;
pub mod number;
pub mod etna;
pub mod runner;
pub mod report;
