//! Tools for PHP-like source text.
//!
//! [`lexer`] is a character-level scanner: it turns text into classified
//! tokens while it tracks the nesting depth of brackets and the line and
//! column of its cursor. [`tokenizer`] does the same job from an ordered
//! table of regular expressions. [`file_watcher`] keeps the books of a
//! watcher that reports new and changed files.
pub mod file_watcher;
pub mod lexer;
pub mod text;
pub mod tokenizer;
