//! Infix-to-prefix notation conversion over a size-tracked LIFO stack,
//! together with a small anagram check.

pub mod anagram;
pub mod converter;
pub mod stack;
